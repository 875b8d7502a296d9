//! Base-ten digit strings: their values, bounds, and an executable reader.

use vstd::prelude::*;

verus! {

/// An ASCII decimal digit.
pub open spec fn is_digit(c: char) -> bool {
    48 <= c as u32 <= 57
}

/// The numeric value of one digit character.
pub open spec fn digit_val(c: char) -> int {
    c as u32 - 48
}

/// The value of a digit string read in base ten.
pub open spec fn digits_val(s: Seq<char>) -> int
    decreases s.len(),
{
    if s.len() == 0 {
        0
    } else {
        digits_val(s.drop_last()) * 10 + digit_val(s.last())
    }
}

/// Ten to the power `n`.
pub open spec fn pow10(n: nat) -> int
    decreases n,
{
    if n == 0 {
        1
    } else {
        10 * pow10((n - 1) as nat)
    }
}

pub proof fn lemma_pow10_pos(n: nat)
    ensures
        pow10(n) >= 1,
    decreases n,
{
    if n > 0 {
        lemma_pow10_pos((n - 1) as nat);
    }
}

pub proof fn lemma_pow10_mono(a: nat, b: nat)
    requires
        a <= b,
    ensures
        pow10(a) <= pow10(b),
    decreases b,
{
    if a < b {
        lemma_pow10_mono(a, (b - 1) as nat);
        lemma_pow10_pos((b - 1) as nat);
    }
}

pub proof fn lemma_pow10_adds(a: nat, b: nat)
    ensures
        pow10(a) * pow10(b) == pow10(a + b),
    decreases a,
{
    if a == 0 {
        assert(pow10(0) == 1);
    } else {
        lemma_pow10_adds((a - 1) as nat, b);
        assert((10 * pow10((a - 1) as nat)) * pow10(b) == 10 * (pow10((a - 1) as nat) * pow10(b)))
            by (nonlinear_arith);
    }
}

/// A string of digits has a value below ten to its length.
pub proof fn lemma_digits_val_bounds(s: Seq<char>)
    requires
        forall|k: int| 0 <= k < s.len() ==> is_digit(#[trigger] s[k]),
    ensures
        0 <= digits_val(s) < pow10(s.len()),
    decreases s.len(),
{
    if s.len() == 0 {
    } else {
        lemma_digits_val_bounds(s.drop_last());
        assert(0 <= digit_val(s.last()) <= 9);
    }
}

/// Extending a digit string never lowers its value; a prefix already past a
/// bound keeps the whole string past it.
pub proof fn lemma_digits_val_prefix(s: Seq<char>, j: int)
    requires
        0 <= j <= s.len(),
        forall|k: int| 0 <= k < s.len() ==> is_digit(#[trigger] s[k]),
    ensures
        digits_val(s) >= digits_val(s.take(j)),
    decreases s.len() - j,
{
    if j == s.len() {
        assert(s.take(j) =~= s);
    } else {
        lemma_digits_val_prefix(s, j + 1);
        assert(s.take(j + 1).drop_last() =~= s.take(j));
        assert(forall|k: int| 0 <= k < s.take(j).len() ==> is_digit(#[trigger] s.take(j)[k]));
        lemma_digits_val_bounds(s.take(j));
        assert(digits_val(s.take(j + 1)) == digits_val(s.take(j)) * 10 + digit_val(s[j]));
    }
}

/// A fractional-second buffer of at most nine digits scales to a value
/// below one billion.
pub proof fn lemma_nanos_fit(s: Seq<char>)
    requires
        forall|k: int| 0 <= k < s.len() ==> is_digit(#[trigger] s[k]),
        1 <= s.len() <= 9,
    ensures
        0 <= digits_val(s) * pow10((9 - s.len()) as nat) < 1000000000,
{
    let v = digits_val(s);
    let n = s.len() as nat;
    let q = pow10((9 - n) as nat);
    lemma_digits_val_bounds(s);
    lemma_pow10_pos((9 - n) as nat);
    lemma_pow10_adds(n, (9 - n) as nat);
    assert(pow10(9) == 1000000000) by {
        reveal_with_fuel(pow10, 10);
    }
    assert(v * q <= (pow10(n) - 1) * q) by (nonlinear_arith)
        requires
            v <= pow10(n) - 1,
            q >= 1,
    ;
    assert((pow10(n) - 1) * q == pow10(n) * q - q) by (nonlinear_arith);
    assert(v * q >= 0) by (nonlinear_arith)
        requires
            v >= 0,
            q >= 1,
    ;
}

/// Reads a digit string as a base-ten `u64`; `None` when the value does not
/// fit in sixty-four bits.
pub fn parse_digits(buf: &Vec<char>) -> (r: Option<u64>)
    requires
        forall|k: int| 0 <= k < buf@.len() ==> is_digit(#[trigger] buf@[k]),
    ensures
        match r {
            Some(v) => digits_val(buf@) == v,
            None => digits_val(buf@) > u64::MAX,
        },
{
    let mut val: u64 = 0;
    let mut j: usize = 0;
    while j < buf.len()
        invariant
            j <= buf@.len(),
            forall|k: int| 0 <= k < buf@.len() ==> is_digit(#[trigger] buf@[k]),
            val == digits_val(buf@.take(j as int)),
        decreases buf@.len() - j,
    {
        let c = buf[j];
        assert(is_digit(buf@[j as int]));
        let d: u64 = ((c as u32) - 48) as u64;
        proof {
            assert(buf@.take(j + 1).drop_last() =~= buf@.take(j as int));
            assert(digits_val(buf@.take(j + 1)) == digits_val(buf@.take(j as int)) * 10 + d);
        }
        if val > (u64::MAX - d) / 10 {
            proof {
                let m = u64::MAX - d;
                assert(m == 10 * (m / 10) + m % 10);
                assert(val * 10 >= (m / 10 + 1) * 10);
                assert(digits_val(buf@.take(j + 1)) > u64::MAX);
                lemma_digits_val_prefix(buf@, j + 1);
            }
            return None;
        }
        proof {
            let m = u64::MAX - d;
            assert(m == 10 * (m / 10) + m % 10);
            assert(val * 10 <= (m / 10) * 10);
        }
        val = val * 10 + d;
        j = j + 1;
    }
    proof {
        assert(buf@.take(buf@.len() as int) =~= buf@);
    }
    Some(val)
}

/// Ten to the power `e`, for exponents at most nine.
pub fn pow10_u64(e: usize) -> (r: u64)
    requires
        e <= 9,
    ensures
        r == pow10(e as nat),
{
    let mut r: u64 = 1;
    let mut k: usize = 0;
    while k < e
        invariant
            k <= e <= 9,
            r == pow10(k as nat),
        decreases e - k,
    {
        proof {
            lemma_pow10_mono(k as nat, 8);
            assert(pow10(8) == 100000000) by {
                reveal_with_fuel(pow10, 9);
            }
        }
        r = r * 10;
        k = k + 1;
    }
    r
}

} // verus!
