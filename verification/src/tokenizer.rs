//! Character-level scanning of a literal into tokens, with a separate
//! scanner for the trailing timezone suffix.

use vstd::prelude::*;
use vstd::string::StrSliceExecFns;

use crate::num::digits_val;
use crate::num::is_digit;
use crate::num::lemma_digits_val_bounds;
use crate::num::lemma_nanos_fit;
use crate::num::lemma_pow10_mono;
use crate::num::parse_digits;
use crate::num::pow10;
use crate::num::pow10_u64;
use crate::tokens::IntervalToken;

verus! {

/// A failure of one of the tokenizers.
#[derive(Debug, Clone, Copy, PartialEq, Eq, Structural)]
pub enum TokenizeError {
    /// A character that no token may contain, at this character offset.
    InvalidCharacter { offset: usize, ch: char },
    /// A numeric buffer flushed at this offset was empty or too large for
    /// `u64`.
    InvalidNumber { offset: usize },
    /// A fractional-second buffer flushed at this offset was empty or longer
    /// than nine digits.
    InvalidFraction { offset: usize },
}

/// Whether a flushed digit buffer yields a token: an integer buffer must be
/// non-empty and fit in `u64`; a fractional-second buffer must hold one to
/// nine digits.
pub open spec fn flush_ok(buf: Seq<char>, is_frac: bool) -> bool {
    if is_frac {
        1 <= buf.len() <= 9
    } else {
        buf.len() >= 1 && digits_val(buf) <= u64::MAX
    }
}

/// The token a flushed digit buffer yields: its integer value, or, for a
/// fractional-second buffer of `L` digits, that value scaled by ten to the
/// power `9 - L`, giving nanoseconds.
pub open spec fn flush_token(buf: Seq<char>, is_frac: bool) -> IntervalToken {
    if is_frac {
        IntervalToken::Nanos((digits_val(buf) * pow10((9 - buf.len()) as nat)) as u32)
    } else {
        IntervalToken::Num(digits_val(buf) as u64)
    }
}

/// The error a failed flush at `offset` reports.
pub open spec fn flush_err(is_frac: bool, offset: int) -> TokenizeError {
    if is_frac {
        TokenizeError::InvalidFraction { offset: offset as usize }
    } else {
        TokenizeError::InvalidNumber { offset: offset as usize }
    }
}

/// One scanning state of the timezone tokenizer, from character `i` on:
/// `buf` holds the digits read since the last token and `toks` the tokens
/// emitted so far. On `-` and `+` a non-empty buffer is flushed first, an
/// empty one is not an error; on ` ` and `:` the buffer is always flushed,
/// so an empty buffer fails; a digit is buffered; any other character is
/// invalid. The end of the input flushes a non-empty buffer.
pub open spec fn scan_timezone(
    s: Seq<char>,
    i: int,
    buf: Seq<char>,
    toks: Seq<IntervalToken>,
) -> Result<Seq<IntervalToken>, TokenizeError>
    decreases s.len() - i,
{
    if i < 0 || i >= s.len() {
        if buf.len() == 0 {
            Ok(toks)
        } else if flush_ok(buf, false) {
            Ok(toks.push(flush_token(buf, false)))
        } else {
            Err(flush_err(false, s.len() as int))
        }
    } else {
        let c = s[i];
        if c == '-' || c == '+' {
            let p = if c == '-' {
                IntervalToken::Dash
            } else {
                IntervalToken::Plus
            };
            if buf.len() == 0 {
                scan_timezone(s, i + 1, Seq::empty(), toks.push(p))
            } else if flush_ok(buf, false) {
                scan_timezone(s, i + 1, Seq::empty(), toks.push(flush_token(buf, false)).push(p))
            } else {
                Err(flush_err(false, i))
            }
        } else if c == ' ' || c == ':' {
            let p = if c == ' ' {
                IntervalToken::Space
            } else {
                IntervalToken::Colon
            };
            if flush_ok(buf, false) {
                scan_timezone(s, i + 1, Seq::empty(), toks.push(flush_token(buf, false)).push(p))
            } else {
                Err(flush_err(false, i))
            }
        } else if is_digit(c) {
            scan_timezone(s, i + 1, buf.push(c), toks)
        } else {
            Err(TokenizeError::InvalidCharacter { offset: i as usize, ch: c })
        }
    }
}

/// What tokenizing a timezone suffix yields.
pub open spec fn spec_tokenize_timezone(s: Seq<char>) -> Result<
    Seq<IntervalToken>,
    TokenizeError,
> {
    scan_timezone(s, 0, Seq::empty(), Seq::empty())
}

/// One scanning state of the main tokenizer, from character `i` on. `buf`
/// holds the digits read since the last token, `is_frac` says whether they
/// follow a `.` and are a fractional second, `after_time` whether a `:` has
/// been seen, which alone permits a `+` to start a timezone suffix. On `-`
/// a non-empty buffer is flushed, an empty one is not an error; ` `, `:`,
/// `.` and `+` always flush, so an empty buffer fails there. A legal `+`
/// hands the rest of the input, itself included, to the timezone scanner.
pub open spec fn scan_interval(
    s: Seq<char>,
    i: int,
    buf: Seq<char>,
    is_frac: bool,
    after_time: bool,
    toks: Seq<IntervalToken>,
    include_timezone: bool,
) -> Result<(Seq<IntervalToken>, Seq<IntervalToken>), TokenizeError>
    decreases s.len() - i,
{
    if i < 0 || i >= s.len() {
        if buf.len() == 0 {
            Ok((toks, Seq::empty()))
        } else if flush_ok(buf, is_frac) {
            Ok((toks.push(flush_token(buf, is_frac)), Seq::empty()))
        } else {
            Err(flush_err(is_frac, s.len() as int))
        }
    } else {
        let c = s[i];
        if c == '-' {
            if buf.len() == 0 {
                scan_interval(
                    s,
                    i + 1,
                    Seq::empty(),
                    false,
                    after_time,
                    toks.push(IntervalToken::Dash),
                    include_timezone,
                )
            } else if flush_ok(buf, is_frac) {
                scan_interval(
                    s,
                    i + 1,
                    Seq::empty(),
                    false,
                    after_time,
                    toks.push(flush_token(buf, is_frac)).push(IntervalToken::Dash),
                    include_timezone,
                )
            } else {
                Err(flush_err(is_frac, i))
            }
        } else if c == ' ' || c == ':' || c == '.' {
            let p = if c == ' ' {
                IntervalToken::Space
            } else if c == ':' {
                IntervalToken::Colon
            } else {
                IntervalToken::Dot
            };
            if flush_ok(buf, is_frac) {
                scan_interval(
                    s,
                    i + 1,
                    Seq::empty(),
                    c == '.',
                    after_time || c == ':',
                    toks.push(flush_token(buf, is_frac)).push(p),
                    include_timezone,
                )
            } else {
                Err(flush_err(is_frac, i))
            }
        } else if c == '+' {
            if !include_timezone || !after_time {
                Err(TokenizeError::InvalidCharacter { offset: i as usize, ch: '+' })
            } else if flush_ok(buf, is_frac) {
                match scan_timezone(s.subrange(i, s.len() as int), 0, Seq::empty(), Seq::empty()) {
                    Ok(tz) => Ok((toks.push(flush_token(buf, is_frac)), tz)),
                    Err(e) => Err(e),
                }
            } else {
                Err(flush_err(is_frac, i))
            }
        } else if is_digit(c) {
            scan_interval(s, i + 1, buf.push(c), is_frac, after_time, toks, include_timezone)
        } else {
            Err(TokenizeError::InvalidCharacter { offset: i as usize, ch: c })
        }
    }
}

/// What tokenizing a literal yields: its body tokens and, when a timezone
/// suffix was split off, that suffix's tokens.
pub open spec fn spec_tokenize_interval(s: Seq<char>, include_timezone: bool) -> Result<
    (Seq<IntervalToken>, Seq<IntervalToken>),
    TokenizeError,
> {
    scan_interval(s, 0, Seq::empty(), false, false, Seq::empty(), include_timezone)
}

/// Turns the buffered digits into the token a flush at `offset` yields, or
/// the error the flush reports.
fn flush_buf(buf: &Vec<char>, is_frac: bool, offset: usize) -> (r: Result<
    IntervalToken,
    TokenizeError,
>)
    requires
        forall|k: int| 0 <= k < buf@.len() ==> is_digit(#[trigger] buf@[k]),
    ensures
        flush_ok(buf@, is_frac) ==> r == Ok::<IntervalToken, TokenizeError>(
            flush_token(buf@, is_frac),
        ),
        !flush_ok(buf@, is_frac) ==> r == Err::<IntervalToken, TokenizeError>(
            flush_err(is_frac, offset as int),
        ),
{
    if is_frac {
        if buf.len() == 0 || buf.len() > 9 {
            Err(TokenizeError::InvalidFraction { offset })
        } else {
            proof {
                lemma_nanos_fit(buf@);
                lemma_digits_val_bounds(buf@);
                lemma_pow10_mono(buf@.len() as nat, 9);
                assert(pow10(9) == 1000000000) by {
                    reveal_with_fuel(pow10, 10);
                }
            }
            let v = match parse_digits(buf) {
                Some(v) => v,
                None => {
                    proof {
                        assert(false);
                    }
                    return Err(TokenizeError::InvalidFraction { offset });
                },
            };
            let mult = pow10_u64(9 - buf.len());
            let nanos = v * mult;
            Ok(IntervalToken::Nanos(nanos as u32))
        }
    } else {
        if buf.len() == 0 {
            Err(TokenizeError::InvalidNumber { offset })
        } else {
            match parse_digits(buf) {
                Some(v) => Ok(IntervalToken::Num(v)),
                None => Err(TokenizeError::InvalidNumber { offset }),
            }
        }
    }
}

/// Scans a timezone suffix into numbers and separators; no fractional
/// handling. A `-` or `+` flushes pending digits before the separator is
/// emitted; `:` and ` ` demand pending digits. The result is pinned to the
/// timezone scanning relation for every input.
pub fn tokenize_timezone(value: &str) -> (r: Result<Vec<IntervalToken>, TokenizeError>)
    ensures
        ({
            let sr = spec_tokenize_timezone(value@);
            match r {
                Ok(toks) => sr matches Ok(st) && toks@ == st,
                Err(e) => sr matches Err(se) && e == se,
            }
        }),
{
    let n = value.unicode_len();
    let mut toks: Vec<IntervalToken> = Vec::new();
    let mut num_buf: Vec<char> = Vec::new();
    let mut i: usize = 0;
    while i < n
        invariant
            n == value@.len(),
            i <= n,
            forall|k: int| 0 <= k < num_buf@.len() ==> is_digit(#[trigger] num_buf@[k]),
            spec_tokenize_timezone(value@) == scan_timezone(value@, i as int, num_buf@, toks@),
        decreases n - i,
    {
        let c = value.get_char(i);
        if c == '-' || c == '+' {
            if num_buf.len() > 0 {
                match flush_buf(&num_buf, false, i) {
                    Ok(t) => toks.push(t),
                    Err(e) => {
                        return Err(e);
                    },
                }
                num_buf.clear();
            } else {
                proof {
                    assert(num_buf@ =~= Seq::<char>::empty());
                }
            }
            toks.push(
                if c == '-' {
                    IntervalToken::Dash
                } else {
                    IntervalToken::Plus
                },
            );
        } else if c == ' ' || c == ':' {
            match flush_buf(&num_buf, false, i) {
                Ok(t) => toks.push(t),
                Err(e) => {
                    return Err(e);
                },
            }
            num_buf.clear();
            toks.push(
                if c == ' ' {
                    IntervalToken::Space
                } else {
                    IntervalToken::Colon
                },
            );
        } else {
            let u = c as u32;
            if 48 <= u && u <= 57 {
                num_buf.push(c);
            } else {
                return Err(TokenizeError::InvalidCharacter { offset: i, ch: c });
            }
        }
        i = i + 1;
    }
    if num_buf.len() > 0 {
        match flush_buf(&num_buf, false, n) {
            Ok(t) => toks.push(t),
            Err(e) => {
                return Err(e);
            },
        }
    }
    Ok(toks)
}

/// Scans a literal into body tokens, delegating a legal timezone suffix to
/// the timezone scanner. The result is pinned to the interval scanning
/// relation for every input and both flag values.
pub fn tokenize_interval(value: &str, include_timezone: bool) -> (r: Result<
    (Vec<IntervalToken>, Vec<IntervalToken>),
    TokenizeError,
>)
    ensures
        ({
            let sr = spec_tokenize_interval(value@, include_timezone);
            match r {
                Ok(p) => sr matches Ok(sp) && p.0@ == sp.0 && p.1@ == sp.1,
                Err(e) => sr matches Err(se) && e == se,
            }
        }),
{
    let n = value.unicode_len();
    let mut toks: Vec<IntervalToken> = Vec::new();
    let mut num_buf: Vec<char> = Vec::new();
    let mut is_frac = false;
    let mut after_time = false;
    let mut i: usize = 0;
    while i < n
        invariant
            n == value@.len(),
            i <= n,
            forall|k: int| 0 <= k < num_buf@.len() ==> is_digit(#[trigger] num_buf@[k]),
            spec_tokenize_interval(value@, include_timezone) == scan_interval(
                value@,
                i as int,
                num_buf@,
                is_frac,
                after_time,
                toks@,
                include_timezone,
            ),
        decreases n - i,
    {
        let c = value.get_char(i);
        if c == '-' {
            if num_buf.len() > 0 {
                match flush_buf(&num_buf, is_frac, i) {
                    Ok(t) => toks.push(t),
                    Err(e) => {
                        return Err(e);
                    },
                }
                num_buf.clear();
            } else {
                proof {
                    assert(num_buf@ =~= Seq::<char>::empty());
                }
            }
            toks.push(IntervalToken::Dash);
            is_frac = false;
        } else if c == ' ' || c == ':' || c == '.' {
            match flush_buf(&num_buf, is_frac, i) {
                Ok(t) => toks.push(t),
                Err(e) => {
                    return Err(e);
                },
            }
            num_buf.clear();
            if c == ' ' {
                toks.push(IntervalToken::Space);
                is_frac = false;
            } else if c == ':' {
                toks.push(IntervalToken::Colon);
                is_frac = false;
                after_time = true;
            } else {
                toks.push(IntervalToken::Dot);
                is_frac = true;
            }
        } else if c == '+' {
            if !include_timezone || !after_time {
                return Err(TokenizeError::InvalidCharacter { offset: i, ch: '+' });
            }
            match flush_buf(&num_buf, is_frac, i) {
                Ok(t) => toks.push(t),
                Err(e) => {
                    return Err(e);
                },
            }
            let suffix = value.substring_char(i, n);
            match tokenize_timezone(suffix) {
                Ok(tz) => {
                    return Ok((toks, tz));
                },
                Err(e) => {
                    return Err(e);
                },
            }
        } else {
            let u = c as u32;
            if 48 <= u && u <= 57 {
                num_buf.push(c);
            } else {
                return Err(TokenizeError::InvalidCharacter { offset: i, ch: c });
            }
        }
        i = i + 1;
    }
    if num_buf.len() > 0 {
        match flush_buf(&num_buf, is_frac, n) {
            Ok(t) => toks.push(t),
            Err(e) => {
                return Err(e);
            },
        }
    }
    Ok((toks, Vec::new()))
}

} // verus!
