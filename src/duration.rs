//! Reading a "modified within" threshold such as `30d` or `60s`.

use vstd::prelude::*;

verus! {

/// Seconds in one unit of the given suffix, if it is one of `s`, `m`, `h`, `d`.
pub open spec fn unit_seconds(c: char) -> Option<nat> {
    if c == 's' {
        Some(1)
    } else if c == 'm' {
        Some(60)
    } else if c == 'h' {
        Some(3600)
    } else if c == 'd' {
        Some(86400)
    } else {
        None
    }
}

pub open spec fn is_digit(c: char) -> bool {
    '0' <= c && c <= '9'
}

pub open spec fn digit_value(c: char) -> nat {
    (c as nat - '0' as nat) as nat
}

pub open spec fn all_digits(s: Seq<char>) -> bool {
    forall|i: int| 0 <= i < s.len() ==> is_digit(#[trigger] s[i])
}

/// The number written in decimal by the digits `s` (no sign, any leading zeros).
pub open spec fn digits_value(s: Seq<char>) -> nat
    decreases s.len(),
{
    if s.len() == 0 {
        0
    } else {
        digits_value(s.drop_last()) * 10 + digit_value(s.last())
    }
}

/// `s` has the shape `^[0-9]+[smhd]$`.
pub open spec fn is_duration(s: Seq<char>) -> bool {
    &&& s.len() >= 2
    &&& all_digits(s.drop_last())
    &&& unit_seconds(s.last()) is Some
}

/// The number of seconds that a well-formed duration string stands for.
pub open spec fn duration_seconds(s: Seq<char>) -> nat {
    digits_value(s.drop_last()) * unit_seconds(s.last())->0
}

/// Why a threshold string was refused.
#[derive(Debug, Clone, Copy, PartialEq, Eq)]
pub enum DurationError {
    /// The text is not a run of digits followed by one of `s`, `m`, `h`, `d`.
    InvalidFormat,
    /// The text is well formed, but its number of seconds does not fit in a `u64`.
    OutOfRange,
}

proof fn lemma_digits_value_grows(s: Seq<char>, c: char)
    requires
        is_digit(c),
    ensures
        digits_value(s.push(c)) == digits_value(s) * 10 + digit_value(c),
        digits_value(s.push(c)) >= digits_value(s),
{
    assert(s.push(c).drop_last() =~= s);
}

fn unit_of(c: char) -> (r: Option<u64>)
    ensures
        match r {
            Some(n) => unit_seconds(c) == Some(n as nat),
            None => unit_seconds(c) is None,
        },
{
    if c == 's' {
        Some(1)
    } else if c == 'm' {
        Some(60)
    } else if c == 'h' {
        Some(3600)
    } else if c == 'd' {
        Some(86400)
    } else {
        None
    }
}

/// Parses a "modified within" threshold into a number of seconds.
///
/// The text must be one or more ASCII digits followed by exactly one unit:
/// `s` (seconds), `m` (minutes), `h` (hours) or `d` (days). Anything else,
/// a sign, a space or a second suffix included, is `InvalidFormat`.
pub fn parse_modified(m: &str) -> (r: Result<u64, DurationError>)
    ensures
        match r {
            Ok(secs) => is_duration(m@) && secs as nat == duration_seconds(m@),
            Err(DurationError::InvalidFormat) => !is_duration(m@),
            Err(DurationError::OutOfRange) => is_duration(m@) && duration_seconds(m@)
                > u64::MAX,
        },
{
    let len = m.unicode_len();
    if len < 2 {
        return Err(DurationError::InvalidFormat);
    }
    let unit = match unit_of(m.get_char(len - 1)) {
        Some(u) => u,
        None => return Err(DurationError::InvalidFormat),
    };
    let ghost digits = m@.drop_last();
    let mut secs: u64 = 0;
    let mut over = false;
    let mut i: usize = 0;
    while i < len - 1
        invariant
            len == m@.len(),
            len >= 2,
            digits == m@.drop_last(),
            unit as nat == unit_seconds(m@.last())->0,
            0 <= i <= len - 1,
            all_digits(digits.subrange(0, i as int)),
            !over ==> secs as nat == digits_value(digits.subrange(0, i as int)) * unit as nat,
            over ==> digits_value(digits.subrange(0, i as int)) * unit as nat > u64::MAX,
        decreases len - 1 - i,
    {
        let c = m.get_char(i);
        if !('0' <= c && c <= '9') {
            assert(!all_digits(digits)) by {
                assert(digits[i as int] == c);
            }
            return Err(DurationError::InvalidFormat);
        }
        let d = (c as u32 - '0' as u32) as u64;
        let ghost before = digits.subrange(0, i as int);
        proof {
            assert(digits.subrange(0, i + 1) =~= before.push(c));
            lemma_digits_value_grows(before, c);
        }
        if !over {
            let ghost v = digits_value(before);
            let ghost v2 = digits_value(before.push(c));
            assert(v2 * unit == secs * 10 + d * unit) by (nonlinear_arith)
                requires
                    v2 == v * 10 + d,
                    secs == v * unit,
            ;
            match secs.checked_mul(10) {
                Some(t) => match d.checked_mul(unit) {
                    Some(du) => match t.checked_add(du) {
                        Some(s) => {
                            secs = s;
                        },
                        None => {
                            over = true;
                        },
                    },
                    None => {
                        assert(v2 * unit >= d * unit) by (nonlinear_arith)
                            requires
                                v2 >= d,
                        ;
                        over = true;
                    },
                },
                None => {
                    assert(v2 * unit >= secs * 10) by (nonlinear_arith)
                        requires
                            v2 * unit == secs * 10 + d * unit,
                            d * unit >= 0,
                    ;
                    over = true;
                },
            }
        } else {
            let ghost v = digits_value(before);
            let ghost v2 = digits_value(before.push(c));
            assert(v2 * unit >= v * unit) by (nonlinear_arith)
                requires
                    v2 >= v,
            ;
        }
        proof {
            assert forall|j: int| 0 <= j < i + 1 implies is_digit(
                #[trigger] digits.subrange(0, i + 1)[j],
            ) by {
                if j < i {
                    assert(digits.subrange(0, i + 1)[j] == before[j]);
                }
            }
        }
        i = i + 1;
    }
    assert(digits.subrange(0, (len - 1) as int) =~= digits);
    if over {
        Err(DurationError::OutOfRange)
    } else {
        Ok(secs)
    }
}

/// Every run of digits followed by a unit suffix is a well-formed duration,
/// and stands for the number those digits write times the unit's seconds.
pub proof fn lemma_duration_value(digits: Seq<char>, unit: char)
    requires
        digits.len() > 0,
        all_digits(digits),
        unit_seconds(unit) is Some,
    ensures
        is_duration(digits.push(unit)),
        duration_seconds(digits.push(unit)) == digits_value(digits) * unit_seconds(unit)->0,
{
    assert(digits.push(unit).drop_last() =~= digits);
}

/// A string with anything but a digit before its last character is no
/// duration, whatever that last character is.
pub proof fn lemma_not_duration(s: Seq<char>, i: int)
    requires
        0 <= i < s.len() - 1,
        !is_digit(s[i]),
    ensures
        !is_duration(s),
{
    assert(s.drop_last()[i] == s[i]);
}

} // verus!
