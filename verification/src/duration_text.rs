//! Lengths of time in words: a number and a unit (`s`, `m`, `h` or `d`).

use vstd::prelude::*;
#[allow(unused_imports)]
use vstd::string::*;
#[allow(unused_imports)]
use crate::text::{chars, dec, dec_int, decimal_signed, strip_end, trim_end_matches};

verus! {

/// The value of a row of decimal digits.
pub open spec fn digits_value(s: Seq<char>) -> Option<nat>
    decreases s.len(),
{
    if s.len() == 0 {
        Some(0)
    } else {
        match digits_value(s.drop_last()) {
            Some(v) => if '0' <= s.last() <= '9' {
                Some(v * 10 + (s.last() as u32 - 48) as nat)
            } else {
                None
            },
            None => None,
        }
    }
}

/// The digits of a number: what follows its sign, if it has one.
pub open spec fn unsigned_part(s: Seq<char>) -> Seq<char> {
    if s.len() > 0 && (s[0] == '-' || s[0] == '+') {
        s.skip(1)
    } else {
        s
    }
}

/// The number that `s` writes: an optional sign and at least one digit, in the range of
/// 64 bits.
pub open spec fn int_of(s: Seq<char>) -> Option<int> {
    if unsigned_part(s).len() == 0 {
        None
    } else {
        match digits_value(unsigned_part(s)) {
            Some(v) => {
                let n = if s[0] == '-' {
                    -(v as int)
                } else {
                    v as int
                };
                if i64::MIN <= n <= i64::MAX {
                    Some(n)
                } else {
                    None
                }
            },
            None => None,
        }
    }
}

/// More digits never make a number smaller, and a bad digit stays bad.
proof fn digits_grow(s: Seq<char>, k: int)
    requires
        0 <= k <= s.len(),
    ensures
        digits_value(s) matches Some(v) ==> (digits_value(s.take(k)) matches Some(w) && w <= v),
    decreases s.len(),
{
    if k == s.len() {
        assert(s.take(k) =~= s);
    } else {
        assert(s.drop_last().take(k) =~= s.take(k));
        digits_grow(s.drop_last(), k);
    }
}

/// Reads a number.
pub fn parse_i64(s: &str) -> (r: Option<i64>)
    ensures
        match int_of(s@) {
            Some(n) => r matches Some(v) && v == n,
            None => r is None,
        },
{
    let v = chars(s);
    let n: usize = v.len();
    let signed = n > 0 && (v[0] == '-' || v[0] == '+');
    let negative = n > 0 && v[0] == '-';
    let from: usize = if signed {
        1
    } else {
        0
    };
    if from == n {
        return None;
    }
    let ghost body = unsigned_part(s@);
    proof {
        assert(body =~= v@.skip(from as int));
        assert(body.take(0) =~= Seq::<char>::empty());
    }
    let mut total: u64 = 0;
    let mut i: usize = from;
    while i < n
        invariant
            from <= i <= n == v@.len(),
            v@ == s@,
            body == unsigned_part(s@),
            body == v@.skip(from as int),
            body.len() > 0,
            digits_value(body.take(i - from)) == Some(total as nat),
            total <= 9_223_372_036_854_775_808,
        decreases n - i,
    {
        let c = v[i];
        proof {
            assert(body.take(i - from + 1).drop_last() =~= body.take(i - from));
            assert(body.take(i - from + 1).last() == c);
            digits_grow(body, i - from + 1);
        }
        if c < '0' || c > '9' {
            return None;
        }
        let d: u64 = (c as u32 - 48) as u64;
        let next: u128 = total as u128 * 10 + d as u128;
        if next > 9_223_372_036_854_775_808 {
            return None;
        }
        total = next as u64;
        i = i + 1;
    }
    proof {
        assert(body.take(n - from) =~= body);
    }
    if negative {
        if total == 9_223_372_036_854_775_808 {
            Some(i64::MIN)
        } else {
            Some(-(total as i64))
        }
    } else if total == 9_223_372_036_854_775_808 {
        None
    } else {
        Some(total as i64)
    }
}

/// The seconds of one unit.
pub open spec fn unit_seconds(c: char) -> Option<int> {
    if c == 's' {
        Some(1)
    } else if c == 'm' {
        Some(60)
    } else if c == 'h' {
        Some(3600)
    } else if c == 'd' {
        Some(86400)
    } else {
        None
    }
}

/// Why a text is no length of time.
#[derive(Debug, Clone, Copy, PartialEq, Eq, Structural)]
pub enum DurationError {
    /// It does not end in a unit.
    Unit,
    /// What stands before the unit is no number.
    Number,
}

/// The seconds that `s` writes, or why it writes none.
pub open spec fn seconds_of(s: Seq<char>) -> Result<int, DurationError> {
    if s.len() == 0 || unit_seconds(s.last()) is None {
        Err(DurationError::Unit)
    } else {
        match int_of(strip_end(s, s.last())) {
            Some(n) => Ok(n * unit_seconds(s.last())->0),
            None => Err(DurationError::Number),
        }
    }
}

/// Reads a length of time, in seconds.
pub fn parse_duration(s: &str) -> (r: Result<i128, DurationError>)
    ensures
        match seconds_of(s@) {
            Ok(n) => r matches Ok(v) && v == n,
            Err(e) => r == Err::<i128, DurationError>(e),
        },
{
    let v = chars(s);
    if v.len() == 0 {
        return Err(DurationError::Unit);
    }
    let c = v[v.len() - 1];
    let unit: i128 = if c == 's' {
        1
    } else if c == 'm' {
        60
    } else if c == 'h' {
        3600
    } else if c == 'd' {
        86400
    } else {
        return Err(DurationError::Unit);
    };
    match parse_i64(trim_end_matches(s, c).as_str()) {
        Some(n) => Ok(n as i128 * unit),
        None => Err(DurationError::Number),
    }
}

/// Writes a length of time as whole seconds.
pub fn format_duration(seconds: i64) -> (out: String)
    ensures
        out@ == dec_int(seconds as int).push('s'),
{
    let mut out = decimal_signed(seconds);
    out.push('s');
    out
}

/// The digits of a number have its value, and each is a digit.
pub proof fn digits_of_dec(n: nat)
    ensures
        digits_value(dec(n)) == Some(n),
        dec(n).len() > 0,
        forall|i: int| 0 <= i < dec(n).len() ==> '0' <= #[trigger] dec(n)[i] <= '9',
    decreases n,
{
    if n < 10 {
        assert(dec(n).drop_last() =~= Seq::<char>::empty());
        assert(digits_value(dec(n).drop_last()) == Some(0nat));
    } else {
        digits_of_dec(n / 10);
        assert(dec(n).drop_last() =~= dec(n / 10));
        assert forall|i: int| 0 <= i < dec(n).len() implies '0' <= #[trigger] dec(n)[i] <= '9' by {
            if i < dec(n).len() - 1 {
                assert(dec(n)[i] == dec(n / 10)[i]);
            }
        }
    }
}

/// Reading a length of time that was written gives it back.
pub proof fn written_durations_read_back(seconds: i64)
    ensures
        seconds_of(dec_int(seconds as int).push('s')) == Ok::<int, DurationError>(seconds as int),
{
    let number = dec_int(seconds as int);
    let s = number.push('s');
    let magnitude = if seconds < 0 {
        (-seconds) as nat
    } else {
        seconds as nat
    };
    digits_of_dec(magnitude);
    assert(s.drop_last() =~= number);
    if seconds < 0 {
        assert(number.last() == dec(magnitude).last());
        assert(unsigned_part(number) =~= dec(magnitude));
        assert(number[0] == '-');
    } else {
        assert(number =~= dec(magnitude));
        assert('0' <= dec(magnitude)[0] <= '9');
        assert(unsigned_part(number) == dec(magnitude));
    }
    assert(digits_value(unsigned_part(number)) == Some(magnitude));
    assert(int_of(number) == Some(seconds as int));
    assert(s.last() == 's');
    assert('0' <= dec(magnitude)[dec(magnitude).len() - 1] <= '9');
    assert(strip_end(number, 's') == number);
    assert(strip_end(s, 's') == number);
    let unit = unit_seconds(s.last())->0;
    let n = seconds as int;
    assert(n * unit == n) by (nonlinear_arith)
        requires
            unit == 1,
    ;
}

/// A minute is sixty seconds, an hour sixty minutes and a day twenty-four hours: a number before
/// one of the units stands for that many of it, and a text without a unit for nothing.
pub proof fn units_are_in_proportion(digits: Seq<char>, n: int)
    requires
        int_of(digits) == Some(n),
        digits.len() > 0,
        '0' <= digits.last() <= '9',
    ensures
        seconds_of(digits.push('s')) == Ok::<int, DurationError>(n),
        seconds_of(digits.push('m')) == Ok::<int, DurationError>(60 * n),
        seconds_of(digits.push('h')) == Ok::<int, DurationError>(60 * 60 * n),
        seconds_of(digits.push('d')) == Ok::<int, DurationError>(24 * 60 * 60 * n),
        seconds_of(digits) == Err::<int, DurationError>(DurationError::Unit),
{
    assert(digits.push('s').drop_last() =~= digits);
    assert(digits.push('m').drop_last() =~= digits);
    assert(digits.push('h').drop_last() =~= digits);
    assert(digits.push('d').drop_last() =~= digits);
    assert(strip_end(digits, 's') == digits);
    assert(strip_end(digits, 'm') == digits);
    assert(strip_end(digits, 'h') == digits);
    assert(strip_end(digits, 'd') == digits);
    assert(strip_end(digits.push('h'), 'h') == digits);
    assert(strip_end(digits.push('d'), 'd') == digits);
    assert(n * 3600 == 60 * 60 * n) by (nonlinear_arith);
    assert(n * 86400 == 24 * 60 * 60 * n) by (nonlinear_arith);
}

} // verus!
