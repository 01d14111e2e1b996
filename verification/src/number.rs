//! Decimal integers as `str::parse` reads them into an unsigned type.
use vstd::prelude::*;

verus! {

/// Why a decimal number could not be read (the kinds of `ParseIntError`
/// that an unsigned type can give).
#[derive(Clone, Copy, Debug, PartialEq, Eq, Structural)]
pub enum IntError {
    /// The text is empty.
    Empty,
    /// A character is not a decimal digit.
    InvalidDigit,
    /// The value is larger than the type holds.
    PosOverflow,
}

pub open spec fn is_digit(c: char) -> bool {
    '0' <= c && c <= '9'
}

pub open spec fn digit_value(c: char) -> int {
    (c as int) - ('0' as int)
}

/// The digits of `s` read from the left, failing at the first character that
/// is no digit or at the first digit that takes the value above `max`.
pub open spec fn digits_value(s: Seq<char>, max: int) -> Result<int, IntError>
    decreases s.len(),
{
    if s.len() == 0 {
        Ok(0)
    } else {
        match digits_value(s.drop_last(), max) {
            Err(e) => Err(e),
            Ok(v) => if !is_digit(s.last()) {
                Err(IntError::InvalidDigit)
            } else if v * 10 + digit_value(s.last()) > max {
                Err(IntError::PosOverflow)
            } else {
                Ok(v * 10 + digit_value(s.last()))
            },
        }
    }
}

/// The value of `s` as an unsigned integer no larger than `max`: one leading
/// `+` is allowed, a sign alone or an empty text is not.
pub open spec fn parse_unsigned(s: Seq<char>, max: int) -> Result<int, IntError> {
    if s.len() == 0 {
        Err(IntError::Empty)
    } else if s.len() == 1 && (s[0] == '+' || s[0] == '-') {
        Err(IntError::InvalidDigit)
    } else if s[0] == '+' {
        digits_value(s.drop_first(), max)
    } else {
        digits_value(s, max)
    }
}

proof fn lemma_digits_value_bounded(s: Seq<char>, max: int)
    requires
        max >= 0,
    ensures
        digits_value(s, max) matches Ok(v) ==> 0 <= v <= max,
    decreases s.len(),
{
    if s.len() > 0 {
        lemma_digits_value_bounded(s.drop_last(), max);
    }
}

/// A value that is read lies between zero and `max`.
pub proof fn lemma_parse_unsigned_bounded(s: Seq<char>, max: int)
    requires
        max >= 0,
    ensures
        parse_unsigned(s, max) matches Ok(v) ==> 0 <= v <= max,
{
    if s.len() > 0 {
        lemma_digits_value_bounded(s, max);
        lemma_digits_value_bounded(s.drop_first(), max);
    }
}

/// Reads `s` as a decimal number no larger than `max`.
pub fn parse_decimal(s: &Vec<char>, max: u64) -> (r: Result<u64, IntError>)
    ensures
        match parse_unsigned(s@, max as int) {
            Ok(v) => r == Ok::<u64, IntError>(v as u64) && v <= max,
            Err(e) => r == Err::<u64, IntError>(e),
        },
        r matches Ok(v) ==> v <= max && parse_unsigned(s@, max as int) == Ok::<int, IntError>(
            v as int,
        ),
{
    let n = s.len();
    if n == 0 {
        return Err(IntError::Empty);
    }
    if n == 1 && (s[0] == '+' || s[0] == '-') {
        return Err(IntError::InvalidDigit);
    }
    let start: usize = if s[0] == '+' { 1 } else { 0 };
    let ghost digits = s@.skip(start as int);
    assert(start == 1 ==> digits == s@.drop_first());
    assert(start == 0 ==> digits == s@);
    assert(parse_unsigned(s@, max as int) == digits_value(digits, max as int));
    let mut acc: u64 = 0;
    let mut i: usize = start;
    while i < n
        invariant
            n == s.len(),
            start <= i <= n,
            digits == s@.skip(start as int),
            parse_unsigned(s@, max as int) == digits_value(digits, max as int),
            digits_value(digits.take(i - start), max as int) == Ok::<int, IntError>(acc as int),
            acc <= max,
        decreases n - i,
    {
        let c = s[i];
        proof {
            let t = digits.take(i - start + 1);
            assert(t.drop_last() == digits.take(i - start));
            assert(t.last() == c);
        }
        if !('0' <= c && c <= '9') {
            proof {
                lemma_failure_persists(digits, max as int, i - start + 1);
            }
            return Err(IntError::InvalidDigit);
        }
        let d = (c as u32 - '0' as u32) as u64;
        assert(d as int == digit_value(c));
        if d > max || acc > (max - d) / 10 {
            assert(acc * 10 + d > max) by (nonlinear_arith)
                requires
                    d > max || acc > (max - d) / 10,
            ;
            proof {
                lemma_failure_persists(digits, max as int, i - start + 1);
            }
            return Err(IntError::PosOverflow);
        }
        assert(acc * 10 + d <= max) by (nonlinear_arith)
            requires
                acc <= (max - d) / 10,
                d <= max,
        ;
        acc = acc * 10 + d;
        i = i + 1;
    }
    assert(digits.take(n - start) == digits);
    Ok(acc)
}

/// A failure on a prefix of the digits is the failure of all of them.
proof fn lemma_failure_persists(s: Seq<char>, max: int, k: int)
    requires
        0 <= k <= s.len(),
        digits_value(s.take(k), max) is Err,
    ensures
        digits_value(s, max) == digits_value(s.take(k), max),
    decreases s.len() - k,
{
    if k < s.len() {
        let t = s.take(k + 1);
        assert(t.drop_last() == s.take(k));
        lemma_failure_persists(s, max, k + 1);
    } else {
        assert(s.take(k) == s);
    }
}

/// Reads `s` as `str::parse::<u16>` does.
pub fn parse_u16(s: &Vec<char>) -> (r: Result<u16, IntError>)
    ensures
        match parse_unsigned(s@, 0xffff) {
            Ok(v) => r == Ok::<u16, IntError>(v as u16),
            Err(e) => r == Err::<u16, IntError>(e),
        },
{
    match parse_decimal(s, 0xffff) {
        Ok(v) => {
            assert(v <= 0xffff);
            let w = v as u16;
            assert(w == v);
            Ok(w)
        },
        Err(e) => Err(e),
    }
}

/// Reads `s` as `str::parse::<u64>` does.
pub fn parse_u64(s: &Vec<char>) -> (r: Result<u64, IntError>)
    ensures
        match parse_unsigned(s@, 0xffff_ffff_ffff_ffff) {
            Ok(v) => r == Ok::<u64, IntError>(v as u64),
            Err(e) => r == Err::<u64, IntError>(e),
        },
{
    parse_decimal(s, 0xffff_ffff_ffff_ffff)
}

} // verus!
