//! Decimal integer text as `str::parse` reads it.
use vstd::prelude::*;
use crate::text::{chars_of, is_digit};

verus! {

/// Value of a digit character.
pub open spec fn digit_value(c: char) -> nat {
    ((c as u32) - ('0' as u32)) as nat
}

/// Value of a run of decimal digits.
pub open spec fn digits_value(d: Seq<char>) -> nat
    decreases d.len(),
{
    if d.len() == 0 {
        0
    } else {
        digits_value(d.drop_last()) * 10 + digit_value(d.last())
    }
}

/// A non-empty run of decimal digits.
pub open spec fn all_digits(d: Seq<char>) -> bool {
    d.len() > 0 && forall|i: int| 0 <= i < d.len() ==> is_digit(#[trigger] d[i])
}

/// Unsigned text: an optional `+` and at least one digit, at most `max`.
pub open spec fn parse_unsigned(s: Seq<char>, max: nat) -> Option<nat> {
    let body = if s.len() > 0 && s[0] == '+' { s.drop_first() } else { s };
    if all_digits(body) && digits_value(body) <= max {
        Some(digits_value(body))
    } else {
        None
    }
}

/// Signed text: an optional `+` or `-` and at least one digit, within
/// `[-neg_max, pos_max]`.
pub open spec fn parse_signed(s: Seq<char>, neg_max: nat, pos_max: nat) -> Option<int> {
    if s.len() > 0 && s[0] == '-' {
        let body = s.drop_first();
        if all_digits(body) && digits_value(body) <= neg_max {
            Some(-(digits_value(body) as int))
        } else {
            None
        }
    } else {
        match parse_unsigned(s, pos_max) {
            Some(v) => Some(v as int),
            None => None,
        }
    }
}

/// `s.parse::<u64>().ok()`.
pub open spec fn parse_u64_spec(s: Seq<char>) -> Option<nat> {
    parse_unsigned(s, u64::MAX as nat)
}

/// `s.parse::<u32>().ok()`.
pub open spec fn parse_u32_spec(s: Seq<char>) -> Option<nat> {
    parse_unsigned(s, u32::MAX as nat)
}

/// `s.parse::<i64>().ok()`.
pub open spec fn parse_i64_spec(s: Seq<char>) -> Option<int> {
    parse_signed(s, 0x8000_0000_0000_0000nat, i64::MAX as nat)
}

/// Reads the digits `d[start..]` as a number no larger than `max`.
fn digits_upto(d: &[char], start: usize, max: u64) -> (r: Option<u64>)
    requires
        start <= d.len(),
        max >= 9,
    ensures
        match r {
            Some(v) => all_digits(d@.subrange(start as int, d@.len() as int)) && v == digits_value(
                d@.subrange(start as int, d@.len() as int),
            ) && v <= max,
            None => !(all_digits(d@.subrange(start as int, d@.len() as int)) && digits_value(
                d@.subrange(start as int, d@.len() as int),
            ) <= max),
        },
{
    let ghost body = d@.subrange(start as int, d@.len() as int);
    if start == d.len() {
        return None;
    }
    let mut acc: u64 = 0;
    let mut i: usize = start;
    while i < d.len()
        invariant
            start <= i <= d.len(),
            start < d.len(),
            body == d@.subrange(start as int, d@.len() as int),
            forall|k: int| start <= k < i ==> is_digit(#[trigger] d@[k]),
            acc == digits_value(d@.subrange(start as int, i as int)),
            acc <= max,
            max >= 9,
        decreases d.len() - i,
    {
        let c = d[i];
        let ghost pre = d@.subrange(start as int, i as int);
        let ghost next = d@.subrange(start as int, i + 1);
        assert(next.drop_last() =~= pre);
        if !('0' <= c && c <= '9') {
            assert(!is_digit(body[i - start]));
            return None;
        }
        let dv = (c as u32 - '0' as u32) as u64;
        if acc > (max - dv) / 10 {
            proof {
                // the value only grows with more digits
                assert(digits_value(next) == acc * 10 + dv);
                assert(acc * 10 + dv > max) by (nonlinear_arith)
                    requires
                        acc > (max - dv) / 10,
                        dv <= 9,
                        dv <= max,
                ;
                lemma_digits_value_prefix(body, (i + 1 - start) as int);
                assert(body.subrange(0, (i + 1 - start) as int) =~= next);
            }
            return None;
        }
        proof {
            assert((max - dv) / 10 * 10 + dv <= max) by (nonlinear_arith)
                requires
                    dv <= max,
            ;
            assert(acc * 10 + dv <= max) by (nonlinear_arith)
                requires
                    acc <= (max - dv) / 10,
                    (max - dv) / 10 * 10 + dv <= max,
            ;
        }
        acc = acc * 10 + dv;
        i = i + 1;
    }
    assert(d@.subrange(start as int, d@.len() as int) =~= body);
    Some(acc)
}

/// The value of a digit run is at least the value of any of its prefixes.
proof fn lemma_digits_value_prefix(s: Seq<char>, k: int)
    requires
        0 <= k <= s.len(),
    ensures
        digits_value(s.subrange(0, k)) <= digits_value(s),
    decreases s.len() - k,
{
    if k < s.len() {
        lemma_digits_value_prefix(s.drop_last(), k);
        assert(s.drop_last().subrange(0, k) =~= s.subrange(0, k));
        assert(digits_value(s) >= digits_value(s.drop_last()) * 10);
        assert(digits_value(s.drop_last()) * 10 >= digits_value(s.drop_last())) by (nonlinear_arith);
    } else {
        assert(s.subrange(0, k) =~= s);
    }
}

/// Parses an unsigned decimal as `str::parse::<u64>` does.
pub fn parse_u64(s: &str) -> (r: Option<u64>)
    ensures
        match r {
            Some(v) => parse_u64_spec(s@) == Some(v as nat),
            None => parse_u64_spec(s@) is None,
        },
{
    let d = chars_of(s);
    let start: usize = if d.len() > 0 && d[0] == '+' { 1 } else { 0 };
    assert(d@.subrange(start as int, d@.len() as int) =~= (if d@.len() > 0 && d@[0] == '+' {
        d@.drop_first()
    } else {
        d@
    }));
    digits_upto(&d, start, u64::MAX)
}

/// Parses an unsigned decimal as `str::parse::<u32>` does.
pub fn parse_u32(s: &str) -> (r: Option<u32>)
    ensures
        match r {
            Some(v) => parse_u32_spec(s@) == Some(v as nat),
            None => parse_u32_spec(s@) is None,
        },
{
    let d = chars_of(s);
    let start: usize = if d.len() > 0 && d[0] == '+' { 1 } else { 0 };
    assert(d@.subrange(start as int, d@.len() as int) =~= (if d@.len() > 0 && d@[0] == '+' {
        d@.drop_first()
    } else {
        d@
    }));
    match digits_upto(&d, start, u32::MAX as u64) {
        Some(v) => Some(v as u32),
        None => None,
    }
}

/// Parses a signed decimal as `str::parse::<i64>` does.
pub fn parse_i64(s: &str) -> (r: Option<i64>)
    ensures
        match r {
            Some(v) => parse_i64_spec(s@) == Some(v as int),
            None => parse_i64_spec(s@) is None,
        },
{
    let d = chars_of(s);
    if d.len() > 0 && d[0] == '-' {
        assert(d@.subrange(1, d@.len() as int) =~= d@.drop_first());
        match digits_upto(&d, 1, 0x8000_0000_0000_0000u64) {
            Some(v) => {
                if v == 0x8000_0000_0000_0000u64 {
                    Some(i64::MIN)
                } else {
                    Some(-(v as i64))
                }
            },
            None => None,
        }
    } else {
        let start: usize = if d.len() > 0 && d[0] == '+' { 1 } else { 0 };
        assert(d@.subrange(start as int, d@.len() as int) =~= (if d@.len() > 0 && d@[0] == '+' {
            d@.drop_first()
        } else {
            d@
        }));
        match digits_upto(&d, start, i64::MAX as u64) {
            Some(v) => Some(v as i64),
            None => None,
        }
    }
}

} // verus!
