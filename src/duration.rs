//! Compact duration tokens ("30m", "2h", "45s") and their millisecond counts.

use vstd::prelude::*;
use crate::text::chars_of;

verus! {

/// Why a duration token was refused.
#[derive(Debug, Clone, Copy, PartialEq, Eq, Structural)]
pub enum DurationError {
    /// No leading digits, or a number too large for a millisecond count.
    InvalidFormat,
    /// The digits are not followed by exactly one of `s`, `m`, `h`.
    InvalidUnit,
}

pub open spec fn is_digit(c: char) -> bool {
    '0' <= c && c <= '9'
}

/// Number of leading decimal digits of `s`.
pub open spec fn digit_run(s: Seq<char>) -> nat
    decreases s.len(),
{
    if s.len() > 0 && is_digit(s[0]) {
        1 + digit_run(s.drop_first())
    } else {
        0
    }
}

/// The number that the decimal digits `s` write.
pub open spec fn decimal_value(s: Seq<char>) -> nat
    decreases s.len(),
{
    if s.len() == 0 {
        0
    } else {
        decimal_value(s.drop_last()) * 10 + (s.last() as nat - '0' as nat) as nat
    }
}

/// Milliseconds in one of the unit `c`.
pub open spec fn unit_millis(c: char) -> Option<nat> {
    if c == 's' {
        Some(1000)
    } else if c == 'm' {
        Some(60_000)
    } else if c == 'h' {
        Some(3_600_000)
    } else {
        None
    }
}

/// The outcome of parsing the token `s`.
pub open spec fn duration_of(s: Seq<char>) -> Result<u64, DurationError> {
    let d = digit_run(s);
    let n = decimal_value(s.take(d as int));
    if d == 0 || n > u64::MAX {
        Err(DurationError::InvalidFormat)
    } else if s.len() != d + 1 || unit_millis(s[d as int]) is None {
        Err(DurationError::InvalidUnit)
    } else if n * unit_millis(s[d as int])->0 > u64::MAX {
        Err(DurationError::InvalidFormat)
    } else {
        Ok((n * unit_millis(s[d as int])->0) as u64)
    }
}

proof fn lemma_digit_run_from(s: Seq<char>, i: nat)
    requires
        i <= s.len(),
        forall|k: int| 0 <= k < i ==> is_digit(#[trigger] s[k]),
    ensures
        digit_run(s) == i + digit_run(s.subrange(i as int, s.len() as int)),
    decreases i,
{
    if i > 0 {
        let t = s.drop_first();
        assert forall|k: int| 0 <= k < i - 1 implies is_digit(#[trigger] t[k]) by {
            assert(t[k] == s[k + 1]);
        }
        lemma_digit_run_from(t, (i - 1) as nat);
        assert(t.subrange(i - 1, t.len() as int) =~= s.subrange(i as int, s.len() as int));
    } else {
        assert(s.subrange(0, s.len() as int) =~= s);
    }
}

/// Parses a duration token: leading decimal digits and one unit character,
/// `s` (seconds), `m` (minutes) or `h` (hours), into milliseconds.
pub fn parse_duration(duration_str: &str) -> (r: Result<u64, DurationError>)
    ensures
        r == duration_of(duration_str@),
{
    let s = chars_of(duration_str);
    let ghost v = s@;
    let mut i: usize = 0;
    let mut value: u64 = 0;
    let mut overflow = false;
    while i < s.len() && '0' <= s[i] && s[i] <= '9'
        invariant
            v == s@,
            i <= s.len(),
            forall|k: int| 0 <= k < i ==> is_digit(#[trigger] v[k]),
            overflow <==> decimal_value(v.take(i as int)) > u64::MAX,
            !overflow ==> value == decimal_value(v.take(i as int)),
        decreases s.len() - i,
    {
        let digit = (s[i] as u32 - '0' as u32) as u64;
        let ghost before = decimal_value(v.take(i as int));
        assert(v.take(i + 1).drop_last() =~= v.take(i as int));
        assert(decimal_value(v.take(i + 1)) == before * 10 + digit);
        if !overflow {
            match value.checked_mul(10) {
                Some(t) => match t.checked_add(digit) {
                    Some(u) => {
                        value = u;
                    },
                    None => {
                        overflow = true;
                    },
                },
                None => {
                    overflow = true;
                },
            }
        }
        i += 1;
    }
    proof {
        lemma_digit_run_from(v, i as nat);
        if i < v.len() {
            assert(v.subrange(i as int, v.len() as int)[0] == v[i as int]);
        }
        assert(digit_run(v) == i);
    }
    if i == 0 || overflow {
        return Err(DurationError::InvalidFormat);
    }
    if s.len() - i != 1 {
        return Err(DurationError::InvalidUnit);
    }
    let factor: u64 = if s[i] == 's' {
        1000
    } else if s[i] == 'm' {
        60_000
    } else if s[i] == 'h' {
        3_600_000
    } else {
        return Err(DurationError::InvalidUnit);
    };
    match value.checked_mul(factor) {
        Some(ms) => Ok(ms),
        None => Err(DurationError::InvalidFormat),
    }
}


/// The decimal digit for `d < 10`.
pub open spec fn digit_char(d: nat) -> char {
    if d == 0 {
        '0'
    } else if d == 1 {
        '1'
    } else if d == 2 {
        '2'
    } else if d == 3 {
        '3'
    } else if d == 4 {
        '4'
    } else if d == 5 {
        '5'
    } else if d == 6 {
        '6'
    } else if d == 7 {
        '7'
    } else if d == 8 {
        '8'
    } else {
        '9'
    }
}

/// `n` written in decimal, without leading zeros.
pub open spec fn decimal(n: nat) -> Seq<char>
    decreases n,
{
    if n < 10 {
        seq![digit_char(n)]
    } else {
        decimal(n / 10).push(digit_char(n % 10))
    }
}

/// `n` written in decimal, padded with a zero to two digits.
pub open spec fn two_digits(n: nat) -> Seq<char> {
    if n < 10 {
        seq!['0'] + decimal(n)
    } else {
        decimal(n)
    }
}

/// `ms` as hours, minutes and seconds: "1h 05m 09s", "4m 30s" or "45s"
/// (whole seconds, leading units left out while zero).
pub open spec fn duration_text(ms: nat) -> Seq<char> {
    let t = ms / 1000;
    let h = t / 3600;
    let m = (t % 3600) / 60;
    let s = t % 60;
    if h > 0 {
        decimal(h) + seq!['h', ' '] + two_digits(m) + seq!['m', ' '] + two_digits(s) + seq!['s']
    } else if m > 0 {
        decimal(m) + seq!['m', ' '] + two_digits(s) + seq!['s']
    } else {
        decimal(s) + seq!['s']
    }
}

fn digit(d: u64) -> (r: char)
    requires
        d < 10,
    ensures
        r == digit_char(d as nat),
{
    if d == 0 {
        '0'
    } else if d == 1 {
        '1'
    } else if d == 2 {
        '2'
    } else if d == 3 {
        '3'
    } else if d == 4 {
        '4'
    } else if d == 5 {
        '5'
    } else if d == 6 {
        '6'
    } else if d == 7 {
        '7'
    } else if d == 8 {
        '8'
    } else {
        '9'
    }
}

/// Appends `n` in decimal.
pub fn push_decimal(out: &mut Vec<char>, n: u64)
    ensures
        final(out)@ == old(out)@ + decimal(n as nat),
    decreases n,
{
    if n >= 10 {
        push_decimal(out, n / 10);
    }
    out.push(digit(n % 10));
    assert(final(out)@ =~= old(out)@ + decimal(n as nat)) by {
        if n >= 10 {
            assert(decimal(n as nat) == decimal((n / 10) as nat).push(digit_char((n % 10) as nat)));
        }
    }
}

fn push_two_digits(out: &mut Vec<char>, n: u64)
    ensures
        final(out)@ == old(out)@ + two_digits(n as nat),
{
    if n < 10 {
        out.push('0');
    }
    push_decimal(out, n);
    assert(final(out)@ =~= old(out)@ + two_digits(n as nat));
}

/// Appends `ms` as `duration_text` writes it.
pub fn push_duration_text(out: &mut Vec<char>, ms: u64)
    ensures
        final(out)@ == old(out)@ + duration_text(ms as nat),
{
    let t = ms / 1000;
    let h = t / 3600;
    let m = (t % 3600) / 60;
    let s = t % 60;
    if h > 0 {
        push_decimal(out, h);
        out.push('h');
        out.push(' ');
        push_two_digits(out, m);
        out.push('m');
        out.push(' ');
        push_two_digits(out, s);
        out.push('s');
    } else if m > 0 {
        push_decimal(out, m);
        out.push('m');
        out.push(' ');
        push_two_digits(out, s);
        out.push('s');
    } else {
        push_decimal(out, s);
        out.push('s');
    }
    assert(final(out)@ =~= old(out)@ + duration_text(ms as nat));
}

/// Hours, minutes and seconds of `ms`, whole seconds, for a clock display.
pub fn clock_parts(ms: u64) -> (r: (u64, u64, u64))
    ensures
        r.0 == ms / 1000 / 3600,
        r.1 == (ms / 1000 % 3600) / 60,
        r.2 == ms / 1000 % 60,
{
    let t = ms / 1000;
    (t / 3600, (t % 3600) / 60, t % 60)
}

} // verus!
