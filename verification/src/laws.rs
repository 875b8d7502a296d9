//! Laws relating the tokenizer, the pattern table and the assigner on
//! literals in canonical shape: non-empty digit groups joined by the
//! separators of the expected pattern for a leading field.

use vstd::prelude::*;

use crate::assign::empty_pdt;
use crate::assign::spec_assign_body;
use crate::assign::spec_build_parsed_datetime;
use crate::assign::ParseError;
use crate::assign::ParsedDateTime;
use crate::num::digits_val;
use crate::num::is_digit;
use crate::num::lemma_digits_val_bounds;
use crate::num::pow10;
use crate::assign::spec_assign_tz_body;
use crate::pattern::spec_body_pattern;
use crate::pattern::spec_canonical_pattern;
use crate::pattern::spec_pattern_offset;
use crate::pattern::spec_timezone_pattern;
use crate::tokenizer::flush_ok;
use crate::tokenizer::flush_token;
use crate::tokenizer::scan_interval;
use crate::tokenizer::spec_tokenize_interval;
use crate::tokenizer::TokenizeError;
use crate::tokens::spec_next_field;
use crate::tokens::DateTimeField;
use crate::tokens::IntervalToken;

verus! {

/// The character a separator token prints as. Value tokens print as no
/// single character; the arm exists only to keep the function total.
pub open spec fn sep_char(t: IntervalToken) -> char {
    match t {
        IntervalToken::Dash => '-',
        IntervalToken::Space => ' ',
        IntervalToken::Colon => ':',
        IntervalToken::Dot => '.',
        IntervalToken::Plus => '+',
        IntervalToken::Num(_) => ' ',
        IntervalToken::Nanos(_) => ' ',
    }
}

/// Whether value slot `j` of a pattern is its fractional-second slot, the
/// one position whose token is `Nanos`.
pub open spec fn is_nanos_slot(pat: Seq<IntervalToken>, j: int) -> bool {
    2 * j == pat.len() - 1
}

/// The literal text spelled by digit groups `j` on, joined with the
/// pattern's separators.
pub open spec fn render_groups(pat: Seq<IntervalToken>, groups: Seq<Seq<char>>, j: int) -> Seq<
    char,
>
    decreases groups.len() - j,
{
    if j < 0 || j >= groups.len() {
        Seq::empty()
    } else if j == groups.len() - 1 {
        groups[j]
    } else {
        groups[j] + seq![sep_char(pat[2 * j + 1])] + render_groups(pat, groups, j + 1)
    }
}

/// Whether digit group `j` is well formed for its slot: non-empty, all
/// digits, and in range for its slot's token: at most nine digits for the
/// fractional-second slot, a value that fits `u64` for every other.
pub open spec fn group_ok(pat: Seq<IntervalToken>, groups: Seq<Seq<char>>, j: int) -> bool {
    &&& groups[j].len() >= 1
    &&& (forall|k: int| 0 <= k < groups[j].len() ==> is_digit(#[trigger] groups[j][k]))
    &&& (if is_nanos_slot(pat, j) {
        groups[j].len() <= 9
    } else {
        digits_val(groups[j]) <= u64::MAX
    })
}

/// Whether a group sequence fills a prefix of the pattern's value slots,
/// every group well formed for its slot.
pub open spec fn groups_wf(pat: Seq<IntervalToken>, groups: Seq<Seq<char>>) -> bool {
    &&& 1 <= groups.len()
    &&& 2 * groups.len() - 1 <= pat.len()
    &&& (forall|j: int| 0 <= j < groups.len() ==> #[trigger] group_ok(pat, groups, j))
}

/// The token that digit group `j` tokenizes to: its value, scaled to
/// nanoseconds in the fractional-second slot.
pub open spec fn group_token(
    pat: Seq<IntervalToken>,
    groups: Seq<Seq<char>>,
    j: int,
) -> IntervalToken {
    flush_token(groups[j], is_nanos_slot(pat, j))
}

/// The tokens that groups `j` on tokenize to: one value token per group,
/// joined by the pattern's separator tokens.
pub open spec fn group_tokens(pat: Seq<IntervalToken>, groups: Seq<Seq<char>>, j: int) -> Seq<
    IntervalToken,
>
    decreases groups.len() - j,
{
    if j < 0 || j >= groups.len() {
        Seq::empty()
    } else if j == groups.len() - 1 {
        seq![group_token(pat, groups, j)]
    } else {
        seq![group_token(pat, groups, j), pat[2 * j + 1]] + group_tokens(pat, groups, j + 1)
    }
}

/// The shape every body pattern has: odd length, `Num` at even positions
/// but `Nanos` last, a separator at odd positions, `Dot` exactly before the
/// final slot.
pub open spec fn pat_wf(pat: Seq<IntervalToken>) -> bool {
    &&& pat.len() % 2 == 1
    &&& pat.len() >= 3
    &&& (forall|k: int|
        0 <= k < pat.len() && k % 2 == 0 ==> #[trigger] pat[k] == (if k == pat.len() - 1 {
            IntervalToken::Nanos(0)
        } else {
            IntervalToken::Num(0)
        }))
    &&& (forall|k: int|
        0 <= k < pat.len() && k % 2 == 1 ==> (#[trigger] pat[k] == IntervalToken::Dash || pat[k]
            == IntervalToken::Space || pat[k] == IntervalToken::Colon || pat[k]
            == IntervalToken::Dot))
    &&& (forall|k: int|
        0 <= k < pat.len() && k % 2 == 1 ==> ((#[trigger] pat[k] == IntervalToken::Dot) <==> k
            == pat.len() - 2))
}

pub proof fn lemma_body_pattern_wf(f: DateTimeField)
    requires
        !(f is TimezoneOffsetSecond),
    ensures
        pat_wf(spec_body_pattern(f)),
{
    let c = spec_canonical_pattern();
    let off = spec_pattern_offset(f);
    let pat = spec_body_pattern(f);
    assert(pat.len() == 13 - off);
    assert forall|k: int| 0 <= k < pat.len() implies pat[k] == c[off + k] by {
        assert(pat[k] == c.subrange(off, 13)[k]);
    }
    assert(c[0] == IntervalToken::Num(0));
    assert(c[1] == IntervalToken::Dash);
    assert(c[2] == IntervalToken::Num(0));
    assert(c[3] == IntervalToken::Dash);
    assert(c[4] == IntervalToken::Num(0));
    assert(c[5] == IntervalToken::Space);
    assert(c[6] == IntervalToken::Num(0));
    assert(c[7] == IntervalToken::Colon);
    assert(c[8] == IntervalToken::Num(0));
    assert(c[9] == IntervalToken::Colon);
    assert(c[10] == IntervalToken::Num(0));
    assert(c[11] == IntervalToken::Dot);
    assert(c[12] == IntervalToken::Nanos(0));
}

/// Scanning a run of digits only extends the numeric buffer.
proof fn lemma_scan_digits(
    s: Seq<char>,
    i: int,
    g: Seq<char>,
    buf: Seq<char>,
    is_frac: bool,
    after_time: bool,
    toks: Seq<IntervalToken>,
    itz: bool,
)
    requires
        0 <= i,
        i + g.len() <= s.len(),
        s.subrange(i, i + g.len()) == g,
        forall|k: int| 0 <= k < g.len() ==> is_digit(#[trigger] g[k]),
    ensures
        scan_interval(s, i, buf, is_frac, after_time, toks, itz) == scan_interval(
            s,
            i + g.len(),
            buf + g,
            is_frac,
            after_time,
            toks,
            itz,
        ),
    decreases g.len(),
{
    if g.len() == 0 {
        assert(buf + g =~= buf);
    } else {
        let c = g[0];
        assert(s.subrange(i, i + g.len())[0] == s[i]);
        assert(is_digit(c));
        assert(c != '-' && c != ' ' && c != ':' && c != '.' && c != '+');
        let g2 = g.drop_first();
        assert(s.subrange(i + 1, i + 1 + g2.len()) =~= g2) by {
            assert forall|k: int| 0 <= k < g2.len() implies s.subrange(i + 1, i + 1 + g2.len())[k]
                == g2[k] by {
                assert(s.subrange(i, i + g.len())[k + 1] == s[i + 1 + k]);
            }
        }
        lemma_scan_digits(s, i + 1, g2, buf.push(c), is_frac, after_time, toks, itz);
        assert(buf.push(c) + g2 =~= buf + g);
    }
}

/// From the start of group `j`, scanning the rendered remainder yields
/// exactly the remaining group tokens.
proof fn lemma_scan_renders(
    s: Seq<char>,
    i: int,
    pat: Seq<IntervalToken>,
    groups: Seq<Seq<char>>,
    j: int,
    after_time: bool,
    toks: Seq<IntervalToken>,
    itz: bool,
)
    requires
        pat_wf(pat),
        groups_wf(pat, groups),
        0 <= j < groups.len(),
        0 <= i <= s.len(),
        s.subrange(i, s.len() as int) == render_groups(pat, groups, j),
    ensures
        scan_interval(s, i, Seq::empty(), is_nanos_slot(pat, j), after_time, toks, itz)
            == Ok::<(Seq<IntervalToken>, Seq<IntervalToken>), TokenizeError>(
            (toks + group_tokens(pat, groups, j), Seq::empty()),
        ),
    decreases groups.len() - j,
{
    let g = groups[j];
    let glen = g.len() as int;
    assert(group_ok(pat, groups, j));
    lemma_digits_val_bounds(g);
    if j == groups.len() - 1 {
        assert(render_groups(pat, groups, j) == g);
        assert(s.len() - i == glen);
        assert(s.subrange(i, i + glen) == g);
        lemma_scan_digits(s, i, g, Seq::empty(), is_nanos_slot(pat, j), after_time, toks, itz);
        assert(Seq::<char>::empty() + g =~= g);
        assert(flush_ok(g, is_nanos_slot(pat, j)));
        assert(toks.push(group_token(pat, groups, j)) =~= toks + group_tokens(pat, groups, j));
    } else {
        let sep = pat[2 * j + 1];
        let sc = sep_char(sep);
        let tail = render_groups(pat, groups, j + 1);
        let whole = g + seq![sc] + tail;
        assert(s.subrange(i, s.len() as int) == whole);
        assert(s.len() - i == glen + 1 + tail.len());
        assert(s.subrange(i, i + glen) =~= g) by {
            assert forall|k: int| 0 <= k < glen implies s.subrange(i, i + glen)[k] == g[k] by {
                assert(s.subrange(i, s.len() as int)[k] == s[i + k]);
                assert(whole[k] == g[k]);
            }
        }
        lemma_scan_digits(s, i, g, Seq::empty(), is_nanos_slot(pat, j), after_time, toks, itz);
        assert(Seq::<char>::empty() + g =~= g);
        let i2 = i + glen;
        assert(s.subrange(i, s.len() as int)[glen] == s[i2]);
        assert(whole[glen] == sc);
        assert(s[i2] == sc);
        // group j is not the fractional-second slot: a separator follows it
        assert(2 * j < pat.len() - 1);
        assert(!is_nanos_slot(pat, j));
        assert(flush_ok(g, false));
        // the separator is one of the four characters the scanner flushes at,
        // and it sets the fractional flag exactly when the next slot is the
        // fractional-second slot
        assert(sep == IntervalToken::Dash || sep == IntervalToken::Space || sep
            == IntervalToken::Colon || sep == IntervalToken::Dot);
        assert((sep == IntervalToken::Dot) <==> (2 * j + 1 == pat.len() - 2));
        assert(is_nanos_slot(pat, j + 1) <==> (sep == IntervalToken::Dot));
        let toks2 = toks.push(flush_token(g, false)).push(sep);
        let at2 = after_time || sc == ':';
        assert(scan_interval(s, i2, g, false, after_time, toks, itz) == scan_interval(
            s,
            i2 + 1,
            Seq::empty(),
            is_nanos_slot(pat, j + 1),
            at2,
            toks2,
            itz,
        )) by {
            if sep == IntervalToken::Dash {
                assert(sc == '-');
            } else if sep == IntervalToken::Space {
                assert(sc == ' ');
            } else if sep == IntervalToken::Colon {
                assert(sc == ':');
            } else {
                assert(sc == '.');
            }
        }
        assert(s.subrange(i2 + 1, s.len() as int) =~= tail) by {
            assert forall|k: int| 0 <= k < tail.len() implies s.subrange(i2 + 1, s.len() as int)[k]
                == tail[k] by {
                assert(s.subrange(i, s.len() as int)[glen + 1 + k] == s[i2 + 1 + k]);
                assert(whole[glen + 1 + k] == tail[k]);
            }
        }
        lemma_scan_renders(s, i2 + 1, pat, groups, j + 1, at2, toks2, itz);
        assert(toks2 + group_tokens(pat, groups, j + 1) =~= toks + group_tokens(pat, groups, j));
    }
}

/// Law: a literal in canonical shape — digit groups joined by the expected
/// pattern's separators, each group in range for its slot — tokenizes
/// without error, into exactly one value token per group, scaled per its
/// slot's rule, joined by the matching separator tokens, with no timezone
/// part; and this holds whichever value the timezone flag has.
pub proof fn lemma_tokenize_canonical(
    f: DateTimeField,
    groups: Seq<Seq<char>>,
    include_timezone: bool,
)
    requires
        !(f is TimezoneOffsetSecond),
        groups_wf(spec_body_pattern(f), groups),
    ensures
        spec_tokenize_interval(render_groups(spec_body_pattern(f), groups, 0), include_timezone)
            == Ok::<(Seq<IntervalToken>, Seq<IntervalToken>), TokenizeError>(
            (group_tokens(spec_body_pattern(f), groups, 0), Seq::empty()),
        ),
{
    lemma_body_pattern_wf(f);
    let pat = spec_body_pattern(f);
    let s = render_groups(pat, groups, 0);
    assert(s.subrange(0, s.len() as int) =~= s);
    assert(!is_nanos_slot(pat, 0));
    lemma_scan_renders(s, 0, pat, groups, 0, false, Seq::empty(), include_timezone);
    assert(Seq::<IntervalToken>::empty() + group_tokens(pat, groups, 0) =~= group_tokens(
        pat,
        groups,
        0,
    ));
}

/// The position of a field in significance order.
pub open spec fn field_index(f: DateTimeField) -> int {
    match f {
        DateTimeField::Year => 0,
        DateTimeField::Month => 1,
        DateTimeField::Day => 2,
        DateTimeField::Hour => 3,
        DateTimeField::Minute => 4,
        DateTimeField::Second => 5,
        DateTimeField::TimezoneOffsetSecond => 6,
    }
}

/// The field at a position in significance order, capped at `Second`, past
/// which the cursor never advances.
pub open spec fn field_of_index(i: int) -> DateTimeField {
    if i <= 0 {
        DateTimeField::Year
    } else if i == 1 {
        DateTimeField::Month
    } else if i == 2 {
        DateTimeField::Day
    } else if i == 3 {
        DateTimeField::Hour
    } else if i == 4 {
        DateTimeField::Minute
    } else {
        DateTimeField::Second
    }
}

/// The field that value slot `j` of a literal with leading field `f` is
/// written to.
pub open spec fn slot_field(f: DateTimeField, j: int) -> DateTimeField {
    field_of_index(field_index(f) + j)
}

/// The value the field at position `fi` holds once the first `upto` slots
/// of a literal with leading field `f` have been assigned.
pub open spec fn num_slot_opt(
    f: DateTimeField,
    groups: Seq<Seq<char>>,
    upto: int,
    fi: int,
) -> Option<u64> {
    let j = fi - field_index(f);
    if 0 <= j < upto {
        Some(digits_val(groups[j]) as u64)
    } else {
        None
    }
}

/// The nanosecond value once the first `upto` slots have been assigned: the
/// fractional-second slot's group, scaled, once that final slot is in.
pub open spec fn nanos_opt(pat: Seq<IntervalToken>, groups: Seq<Seq<char>>, upto: int) -> Option<
    u32,
> {
    let j = (pat.len() - 1) / 2;
    if j < upto {
        Some((digits_val(groups[j]) * pow10((9 - groups[j].len()) as nat)) as u32)
    } else {
        None
    }
}

/// The result record once the first `upto` value slots of a canonical
/// literal with leading field `f` have been assigned.
pub open spec fn partial_result(
    f: DateTimeField,
    pat: Seq<IntervalToken>,
    groups: Seq<Seq<char>>,
    upto: int,
) -> ParsedDateTime {
    ParsedDateTime {
        is_positive: true,
        year: num_slot_opt(f, groups, upto, 0),
        month: num_slot_opt(f, groups, upto, 1),
        day: num_slot_opt(f, groups, upto, 2),
        hour: num_slot_opt(f, groups, upto, 3),
        minute: num_slot_opt(f, groups, upto, 4),
        second: num_slot_opt(f, groups, upto, 5),
        nano: nanos_opt(pat, groups, upto),
        timezone_offset_second: None,
    }
}

proof fn lemma_group_tokens_len(pat: Seq<IntervalToken>, groups: Seq<Seq<char>>, j: int)
    requires
        0 <= j < groups.len(),
    ensures
        group_tokens(pat, groups, j).len() == 2 * (groups.len() - j) - 1,
    decreases groups.len() - j,
{
    if j < groups.len() - 1 {
        lemma_group_tokens_len(pat, groups, j + 1);
    }
}

proof fn lemma_group_tokens_index(pat: Seq<IntervalToken>, groups: Seq<Seq<char>>, j: int, k: int)
    requires
        0 <= j < groups.len(),
        0 <= k < 2 * (groups.len() - j) - 1,
    ensures
        group_tokens(pat, groups, j)[k] == (if k % 2 == 0 {
            group_token(pat, groups, j + k / 2)
        } else {
            pat[2 * j + k]
        }),
    decreases k,
{
    lemma_group_tokens_len(pat, groups, j);
    if j < groups.len() - 1 && k >= 2 {
        lemma_group_tokens_len(pat, groups, j + 1);
        lemma_group_tokens_index(pat, groups, j + 1, k - 2);
    }
}

/// From value slot `j` on, the body pass writes each remaining group's
/// value into its slot's field and ends in the full canonical result.
proof fn lemma_assign_groups(
    f: DateTimeField,
    pat: Seq<IntervalToken>,
    groups: Seq<Seq<char>>,
    actual: Seq<IntervalToken>,
    j: int,
)
    requires
        !(f is TimezoneOffsetSecond),
        pat == spec_body_pattern(f),
        groups_wf(pat, groups),
        actual == group_tokens(pat, groups, 0),
        0 <= j < groups.len(),
        forall|k: int|
            j <= k < groups.len() && #[trigger] slot_field(f, k) is Month ==> digits_val(
                groups[k],
            ) >= 1,
        forall|k: int|
            j <= k < groups.len() && #[trigger] slot_field(f, k) is Day ==> digits_val(groups[k])
                >= 1,
    ensures
        spec_assign_body(
            actual,
            pat,
            2 * j,
            slot_field(f, j),
            j + field_index(f) > 5,
            partial_result(f, pat, groups, j),
        ) == Ok::<ParsedDateTime, ParseError>(
            partial_result(f, pat, groups, groups.len() as int),
        ),
    decreases groups.len() - j,
{
    lemma_body_pattern_wf(f);
    lemma_group_tokens_len(pat, groups, 0);
    lemma_group_tokens_index(pat, groups, 0, 2 * j);
    let glen = groups.len() as int;
    let idx = field_index(f);
    assert(pat.len() == 13 - 2 * idx);
    assert(group_ok(pat, groups, j));
    lemma_digits_val_bounds(groups[j]);
    let a = actual[2 * j];
    let e = pat[2 * j];
    assert(a == group_token(pat, groups, j));
    let pdt0 = partial_result(f, pat, groups, j);
    if is_nanos_slot(pat, j) {
        // the fractional-second slot: it is the pattern's last slot, it is
        // preceded by the seconds slot, and it closes the literal
        assert(2 * j == pat.len() - 1);
        assert(j == 6 - idx);
        assert(j + idx > 5);
        assert(e == IntervalToken::Nanos(0));
        let nv = (digits_val(groups[j]) * pow10((9 - groups[j].len()) as nat)) as u32;
        assert(a == IntervalToken::Nanos(nv));
        assert(j == glen - 1);
        assert(2 * j + 1 >= actual.len());
        let pdt1 = ParsedDateTime { nano: Some(nv), ..pdt0 };
        assert(spec_assign_body(actual, pat, 2 * j + 1, slot_field(f, j), true, pdt1) == Ok::<
            ParsedDateTime,
            ParseError,
        >(pdt1));
        assert(pdt1 == partial_result(f, pat, groups, glen));
    } else {
        assert(2 * j < pat.len() - 1);
        assert(e == IntervalToken::Num(0));
        let v = digits_val(groups[j]) as u64;
        assert(a == IntervalToken::Num(v));
        assert(j + idx <= 5);
        let cur = slot_field(f, j);
        assert(cur == field_of_index(idx + j));
        if cur is Month {
            assert(digits_val(groups[j]) >= 1);
            assert(v >= 1);
        }
        if cur is Day {
            assert(digits_val(groups[j]) >= 1);
            assert(v >= 1);
        }
        let cur2 = slot_field(f, j + 1);
        let ss2 = j + 1 + idx > 5;
        let pdt1 = partial_result(f, pat, groups, j + 1);
        // writing slot j takes the record one slot further
        assert((pat.len() - 1) / 2 == 6 - idx);
        assert(nanos_opt(pat, groups, j) == nanos_opt(pat, groups, j + 1));
        assert(spec_assign_body(actual, pat, 2 * j, cur, j + idx > 5, pdt0) == spec_assign_body(
            actual,
            pat,
            2 * j + 1,
            cur2,
            ss2,
            pdt1,
        ));
        if j == glen - 1 {
            assert(2 * j + 1 >= actual.len());
            assert(pdt1 == partial_result(f, pat, groups, glen));
        } else {
            lemma_group_tokens_index(pat, groups, 0, 2 * j + 1);
            let a2 = actual[2 * j + 1];
            let e2 = pat[2 * j + 1];
            assert(a2 == e2);
            assert(e2 == IntervalToken::Dash || e2 == IntervalToken::Space || e2
                == IntervalToken::Colon || e2 == IntervalToken::Dot);
            assert(spec_assign_body(actual, pat, 2 * j + 1, cur2, ss2, pdt1) == spec_assign_body(
                actual,
                pat,
                2 * j + 2,
                cur2,
                ss2,
                pdt1,
            ));
            lemma_assign_groups(f, pat, groups, actual, j + 1);
        }
    }
}

/// Law: the tokens of a canonical literal re-validate against the expected
/// pattern for the same leading field: assignment never fails, and the
/// values assigned are, in order, exactly the literal's digit groups, each
/// scaled per its slot's rule, written to consecutive fields from the
/// leading field on. Month and day groups must be at least one, the one
/// family of canonical literals the field rules reject.
pub proof fn lemma_assign_canonical(f: DateTimeField, groups: Seq<Seq<char>>)
    requires
        !(f is TimezoneOffsetSecond),
        groups_wf(spec_body_pattern(f), groups),
        forall|k: int|
            0 <= k < groups.len() && #[trigger] slot_field(f, k) is Month ==> digits_val(
                groups[k],
            ) >= 1,
        forall|k: int|
            0 <= k < groups.len() && #[trigger] slot_field(f, k) is Day ==> digits_val(groups[k])
                >= 1,
    ensures
        spec_build_parsed_datetime(
            group_tokens(spec_body_pattern(f), groups, 0),
            f,
            Seq::empty(),
        ) == Ok::<ParsedDateTime, ParseError>(
            partial_result(f, spec_body_pattern(f), groups, groups.len() as int),
        ),
{
    lemma_body_pattern_wf(f);
    let pat = spec_body_pattern(f);
    let actual = group_tokens(pat, groups, 0);
    lemma_group_tokens_len(pat, groups, 0);
    lemma_group_tokens_index(pat, groups, 0, 0);
    // the first token is a value token, so no sign dash is consumed
    assert(!is_nanos_slot(pat, 0));
    assert(actual[0] == IntervalToken::Num(digits_val(groups[0]) as u64));
    assert(slot_field(f, 0) == f) by {
        assert(field_of_index(field_index(f)) == f);
    }
    assert(field_index(f) <= 5);
    assert(partial_result(f, pat, groups, 0) == empty_pdt(true));
    lemma_assign_groups(f, pat, groups, actual, 0);
}

/// The result record's invariant: month and day, when present, are at
/// least one, and a nanosecond value is only ever present beside a second
/// value.
pub open spec fn result_inv(pdt: ParsedDateTime) -> bool {
    &&& (pdt.month matches Some(m) ==> m >= 1)
    &&& (pdt.day matches Some(d) ==> d >= 1)
    &&& (pdt.nano is Some ==> pdt.second is Some)
}

proof fn lemma_assign_body_inv(
    actual: Seq<IntervalToken>,
    expected: Seq<IntervalToken>,
    i: int,
    field: DateTimeField,
    ss: bool,
    pdt: ParsedDateTime,
)
    requires
        result_inv(pdt),
        ss ==> pdt.second is Some,
    ensures
        spec_assign_body(actual, expected, i, field, ss, pdt) matches Ok(p) ==> result_inv(p),
    decreases actual.len() - i,
{
    if i < 0 || i >= actual.len() || i >= expected.len() {
    } else {
        let a = actual[i];
        let e = expected[i];
        match (a, e) {
            (IntervalToken::Dash, IntervalToken::Dash)
            | (IntervalToken::Space, IntervalToken::Space)
            | (IntervalToken::Colon, IntervalToken::Colon)
            | (IntervalToken::Dot, IntervalToken::Dot) => {
                lemma_assign_body_inv(actual, expected, i + 1, field, ss, pdt);
            },
            (IntervalToken::Num(v), IntervalToken::Num(_)) => {
                match field {
                    DateTimeField::Year => {
                        lemma_assign_body_inv(
                            actual,
                            expected,
                            i + 1,
                            spec_next_field(field),
                            ss,
                            ParsedDateTime { year: Some(v), ..pdt },
                        );
                    },
                    DateTimeField::Month => {
                        if v >= 1 {
                            lemma_assign_body_inv(
                                actual,
                                expected,
                                i + 1,
                                spec_next_field(field),
                                ss,
                                ParsedDateTime { month: Some(v), ..pdt },
                            );
                        }
                    },
                    DateTimeField::Day => {
                        if v >= 1 {
                            lemma_assign_body_inv(
                                actual,
                                expected,
                                i + 1,
                                spec_next_field(field),
                                ss,
                                ParsedDateTime { day: Some(v), ..pdt },
                            );
                        }
                    },
                    DateTimeField::Hour => {
                        lemma_assign_body_inv(
                            actual,
                            expected,
                            i + 1,
                            spec_next_field(field),
                            ss,
                            ParsedDateTime { hour: Some(v), ..pdt },
                        );
                    },
                    DateTimeField::Minute => {
                        lemma_assign_body_inv(
                            actual,
                            expected,
                            i + 1,
                            spec_next_field(field),
                            ss,
                            ParsedDateTime { minute: Some(v), ..pdt },
                        );
                    },
                    DateTimeField::Second => {
                        if !ss {
                            lemma_assign_body_inv(
                                actual,
                                expected,
                                i + 1,
                                field,
                                true,
                                ParsedDateTime { second: Some(v), ..pdt },
                            );
                        }
                    },
                    DateTimeField::TimezoneOffsetSecond => {},
                }
            },
            (IntervalToken::Nanos(v), IntervalToken::Nanos(_)) => {
                if ss {
                    lemma_assign_body_inv(
                        actual,
                        expected,
                        i + 1,
                        field,
                        ss,
                        ParsedDateTime { nano: Some(v), ..pdt },
                    );
                }
            },
            _ => {},
        }
    }
}

/// Law (record invariant): every record the assigner returns satisfies the
/// result invariant, whatever tokens, leading field and timezone tokens it
/// was built from.
pub proof fn lemma_build_result_invariants(
    tokens: Seq<IntervalToken>,
    leading: DateTimeField,
    tz: Seq<IntervalToken>,
)
    ensures
        spec_build_parsed_datetime(tokens, leading, tz) matches Ok(p) ==> result_inv(p),
{
    if !(leading is TimezoneOffsetSecond) {
        let neg = tokens.len() > 0 && tokens[0] is Dash;
        let rest = if neg {
            tokens.drop_first()
        } else {
            tokens
        };
        lemma_assign_body_inv(rest, spec_body_pattern(leading), 0, leading, false, empty_pdt(!neg));
    }
}

/// How many of the first `i` pattern positions are value slots destined
/// for a date/time field: the even positions below the final,
/// fractional-second one.
pub open spec fn num_positions(pat: Seq<IntervalToken>, i: int) -> int {
    if i <= 0 {
        0
    } else if i >= pat.len() - 1 {
        pat.len() as int / 2
    } else {
        (i + 1) / 2
    }
}

proof fn lemma_assign_body_no_second_error(
    actual: Seq<IntervalToken>,
    pat: Seq<IntervalToken>,
    i: int,
    field: DateTimeField,
    ss: bool,
    pdt: ParsedDateTime,
    f: DateTimeField,
)
    requires
        !(f is TimezoneOffsetSecond),
        pat == spec_body_pattern(f),
        0 <= i,
        field == field_of_index(field_index(f) + num_positions(pat, i)),
        ss == (field_index(f) + num_positions(pat, i) >= 6),
    ensures
        !(spec_assign_body(actual, pat, i, field, ss, pdt) matches Err(
            ParseError::TooManySeconds { .. },
        )),
    decreases actual.len() - i,
{
    lemma_body_pattern_wf(f);
    let idx = field_index(f);
    assert(pat.len() == 13 - 2 * idx);
    if i < actual.len() && i < pat.len() {
        let a = actual[i];
        let e = pat[i];
        let n = num_positions(pat, i);
        match (a, e) {
            (IntervalToken::Dash, IntervalToken::Dash)
            | (IntervalToken::Space, IntervalToken::Space)
            | (IntervalToken::Colon, IntervalToken::Colon)
            | (IntervalToken::Dot, IntervalToken::Dot) => {
                // a separator stands only at odd positions, which add no slot
                assert(i % 2 == 1);
                assert(num_positions(pat, i + 1) == n);
                lemma_assign_body_no_second_error(actual, pat, i + 1, field, ss, pdt, f);
            },
            (IntervalToken::Num(v), IntervalToken::Num(_)) => {
                // a numeric slot stands only at even positions below the last
                assert(i % 2 == 0 && i < pat.len() - 1);
                assert(n == i / 2);
                assert(num_positions(pat, i + 1) == n + 1);
                match field {
                    DateTimeField::Year | DateTimeField::Month | DateTimeField::Day
                    | DateTimeField::Hour | DateTimeField::Minute => {
                        assert(idx + n <= 4);
                        assert(spec_next_field(field) == field_of_index(idx + n + 1));
                        if field is Year {
                            lemma_assign_body_no_second_error(
                                actual,
                                pat,
                                i + 1,
                                spec_next_field(field),
                                ss,
                                ParsedDateTime { year: Some(v), ..pdt },
                                f,
                            );
                        } else if field is Month {
                            if v >= 1 {
                                lemma_assign_body_no_second_error(
                                    actual,
                                    pat,
                                    i + 1,
                                    spec_next_field(field),
                                    ss,
                                    ParsedDateTime { month: Some(v), ..pdt },
                                    f,
                                );
                            }
                        } else if field is Day {
                            if v >= 1 {
                                lemma_assign_body_no_second_error(
                                    actual,
                                    pat,
                                    i + 1,
                                    spec_next_field(field),
                                    ss,
                                    ParsedDateTime { day: Some(v), ..pdt },
                                    f,
                                );
                            }
                        } else if field is Hour {
                            lemma_assign_body_no_second_error(
                                actual,
                                pat,
                                i + 1,
                                spec_next_field(field),
                                ss,
                                ParsedDateTime { hour: Some(v), ..pdt },
                                f,
                            );
                        } else {
                            lemma_assign_body_no_second_error(
                                actual,
                                pat,
                                i + 1,
                                spec_next_field(field),
                                ss,
                                ParsedDateTime { minute: Some(v), ..pdt },
                                f,
                            );
                        }
                    },
                    DateTimeField::Second => {
                        // a second seconds slot would lie at or past the
                        // pattern's end
                        assert(idx + n >= 5);
                        assert(!ss) by {
                            if ss {
                                assert(idx + n >= 6);
                                assert(i >= pat.len() - 1);
                            }
                        }
                        lemma_assign_body_no_second_error(
                            actual,
                            pat,
                            i + 1,
                            field,
                            true,
                            ParsedDateTime { second: Some(v), ..pdt },
                            f,
                        );
                    },
                    DateTimeField::TimezoneOffsetSecond => {
                        assert(false);
                    },
                }
            },
            (IntervalToken::Nanos(v), IntervalToken::Nanos(_)) => {
                assert(i == pat.len() - 1);
                assert(num_positions(pat, i + 1) == n);
                if ss {
                    lemma_assign_body_no_second_error(
                        actual,
                        pat,
                        i + 1,
                        field,
                        ss,
                        ParsedDateTime { nano: Some(v), ..pdt },
                        f,
                    );
                }
            },
            _ => {},
        }
    }
}

proof fn lemma_assign_tz_no_second_error(
    actual: Seq<IntervalToken>,
    expected: Seq<IntervalToken>,
    i: int,
    hours_seen: bool,
    minutes_seen: bool,
    acc: int,
)
    ensures
        !(spec_assign_tz_body(actual, expected, i, hours_seen, minutes_seen, acc) matches Err(
            ParseError::TooManySeconds { .. },
        )),
    decreases actual.len() - i,
{
    if 0 <= i && i < actual.len() && i < expected.len() {
        match (actual[i], expected[i]) {
            (IntervalToken::Dash, IntervalToken::Dash)
            | (IntervalToken::Space, IntervalToken::Space)
            | (IntervalToken::Colon, IntervalToken::Colon)
            | (IntervalToken::Dot, IntervalToken::Dot)
            | (IntervalToken::Plus, IntervalToken::Plus) => {
                lemma_assign_tz_no_second_error(
                    actual,
                    expected,
                    i + 1,
                    hours_seen,
                    minutes_seen,
                    acc,
                );
            },
            (IntervalToken::Num(v), IntervalToken::Num(_)) => {
                if !hours_seen {
                    if acc + v * 3600 <= i64::MAX {
                        lemma_assign_tz_no_second_error(
                            actual,
                            expected,
                            i + 1,
                            true,
                            minutes_seen,
                            acc + v * 3600,
                        );
                    }
                } else if !minutes_seen {
                    if acc + v * 60 <= i64::MAX {
                        lemma_assign_tz_no_second_error(
                            actual,
                            expected,
                            i + 1,
                            true,
                            true,
                            acc + v * 60,
                        );
                    }
                } else {
                    lemma_assign_tz_no_second_error(
                        actual,
                        expected,
                        i + 1,
                        hours_seen,
                        minutes_seen,
                        acc,
                    );
                }
            },
            _ => {},
        }
    }
}

/// Law: the expected pattern from any leading field holds exactly one slot
/// destined for the seconds field, so no token sequence at all can make the
/// assigner report a second seconds value; the guard against one can never
/// fire.
pub proof fn lemma_too_many_seconds_unreachable(
    tokens: Seq<IntervalToken>,
    leading: DateTimeField,
    tz: Seq<IntervalToken>,
)
    ensures
        !(spec_build_parsed_datetime(tokens, leading, tz) matches Err(
            ParseError::TooManySeconds { .. },
        )),
{
    if !(leading is TimezoneOffsetSecond) {
        let pat = spec_body_pattern(leading);
        let neg = tokens.len() > 0 && tokens[0] is Dash;
        let rest = if neg {
            tokens.drop_first()
        } else {
            tokens
        };
        assert(num_positions(pat, 0) == 0);
        assert(field_of_index(field_index(leading)) == leading);
        assert(field_index(leading) <= 5);
        lemma_assign_body_no_second_error(rest, pat, 0, leading, false, empty_pdt(!neg), leading);
        let tzneg = tz.len() > 0 && tz[0] is Dash;
        let tzrest = if tzneg {
            tz.drop_first()
        } else {
            tz
        };
        lemma_assign_tz_no_second_error(tzrest, spec_timezone_pattern(), 0, false, false, 0);
    }
}

/// Law (round trip): a literal in canonical shape from a leading field
/// tokenizes without error, and re-deriving the expected pattern for that
/// field and re-validating the produced tokens against it also never
/// fails; the structured result holds exactly the literal's numeric
/// substrings, in order, each scaled per its field's rule.
pub proof fn lemma_canonical_round_trip(
    f: DateTimeField,
    groups: Seq<Seq<char>>,
    include_timezone: bool,
)
    requires
        !(f is TimezoneOffsetSecond),
        groups_wf(spec_body_pattern(f), groups),
        forall|k: int|
            0 <= k < groups.len() && #[trigger] slot_field(f, k) is Month ==> digits_val(
                groups[k],
            ) >= 1,
        forall|k: int|
            0 <= k < groups.len() && #[trigger] slot_field(f, k) is Day ==> digits_val(groups[k])
                >= 1,
    ensures
        ({
            let r = spec_tokenize_interval(
                render_groups(spec_body_pattern(f), groups, 0),
                include_timezone,
            );
            &&& r matches Ok(p)
            &&& spec_build_parsed_datetime(p.0, f, p.1) == Ok::<ParsedDateTime, ParseError>(
                partial_result(f, spec_body_pattern(f), groups, groups.len() as int),
            )
        }),
{
    lemma_tokenize_canonical(f, groups, include_timezone);
    lemma_assign_canonical(f, groups);
}

} // verus!
