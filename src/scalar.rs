//! Decimal text to integers, with the grammar of std's integer `from_str`:
//! an optional sign (`+` for unsigned types, `+` or `-` for signed ones)
//! followed by one or more ASCII digits, whose value fits the type.
use vstd::prelude::*;
use crate::text::chars_of;

verus! {

pub open spec fn is_digit(c: char) -> bool {
    '0' <= c && c <= '9'
}

pub open spec fn all_digits(s: Seq<char>) -> bool {
    forall|i: int| 0 <= i < s.len() ==> is_digit(#[trigger] s[i])
}

/// The value of a string of decimal digits.
pub open spec fn digits_value(s: Seq<char>) -> int
    decreases s.len(),
{
    if s.len() == 0 {
        0
    } else {
        digits_value(s.drop_last()) * 10 + (s.last() as int - '0' as int)
    }
}

/// The value of unsigned digits `s` where it is at most `limit`.
pub open spec fn magnitude(s: Seq<char>, limit: int) -> Option<int> {
    if s.len() > 0 && all_digits(s) && digits_value(s) <= limit {
        Some(digits_value(s))
    } else {
        None
    }
}

/// The value of `s` read as an unsigned integer of maximum `limit`.
pub open spec fn unsigned_value(s: Seq<char>, limit: int) -> Option<int> {
    if s.len() > 0 && s[0] == '+' {
        magnitude(s.drop_first(), limit)
    } else {
        magnitude(s, limit)
    }
}

pub open spec fn i64_min() -> int {
    -0x8000_0000_0000_0000
}

pub open spec fn i64_max() -> int {
    0x7fff_ffff_ffff_ffff
}

/// The value of `s` read as an `i64`.
pub open spec fn i64_value(s: Seq<char>) -> Option<int> {
    if s.len() > 0 && s[0] == '-' {
        match magnitude(s.drop_first(), -i64_min()) {
            Some(m) => Some(-m),
            None => None,
        }
    } else {
        unsigned_value(s, i64_max())
    }
}

/// The value of `s` read as a signed numeral of any size: an optional `+` or
/// `-` followed by one or more digits.
pub open spec fn numeral_value(s: Seq<char>) -> Option<int> {
    if s.len() > 0 && (s[0] == '+' || s[0] == '-') {
        let d = s.drop_first();
        if d.len() > 0 && all_digits(d) {
            Some(
                if s[0] == '-' {
                    -digits_value(d)
                } else {
                    digits_value(d)
                },
            )
        } else {
            None
        }
    } else if s.len() > 0 && all_digits(s) {
        Some(digits_value(s))
    } else {
        None
    }
}

/// The low 32 bits of `v`, i.e. `v` modulo 2^32.
pub open spec fn low32(v: int) -> int {
    v % 0x1_0000_0000
}

proof fn lemma_digits_nonnegative(s: Seq<char>)
    requires
        all_digits(s),
    ensures
        digits_value(s) >= 0,
    decreases s.len(),
{
    if s.len() > 0 {
        assert(is_digit(s[s.len() - 1]));
        lemma_digits_nonnegative(s.drop_last());
    }
}

/// What `unsigned_value` reads lies between zero and the limit.
pub proof fn lemma_unsigned_bounds(s: Seq<char>, limit: int)
    ensures
        unsigned_value(s, limit) matches Some(v) ==> 0 <= v <= limit,
{
    if s.len() > 0 && s[0] == '+' {
        if all_digits(s.drop_first()) {
            lemma_digits_nonnegative(s.drop_first());
        }
    } else if all_digits(s) {
        lemma_digits_nonnegative(s);
    }
}

/// A prefix of a digit string never has a larger value than the whole.
proof fn lemma_prefix_value_le(s: Seq<char>, k: int)
    requires
        all_digits(s),
        0 <= k <= s.len(),
    ensures
        digits_value(s.take(k)) <= digits_value(s),
    decreases s.len() - k,
{
    if k < s.len() {
        let t = s.take(k + 1);
        assert(t.drop_last() == s.take(k));
        assert(is_digit(s[k]));
        lemma_digits_nonnegative(s.take(k));
        lemma_prefix_value_le(s, k + 1);
    } else {
        assert(s.take(k) == s);
    }
}

/// Reads `s[start..]` as unsigned digits whose value is at most `limit`.
fn parse_magnitude(s: &Vec<char>, start: usize, limit: u64) -> (r: Option<u64>)
    requires
        start <= s.len(),
    ensures
        r is Some <==> magnitude(s@.subrange(start as int, s.len() as int), limit as int) is Some,
        r matches Some(v) ==> magnitude(s@.subrange(start as int, s.len() as int), limit as int)
            == Some(v as int),
{
    let ghost d = s@.subrange(start as int, s.len() as int);
    if start == s.len() {
        return None;
    }
    let mut acc: u64 = 0;
    let mut i: usize = start;
    while i < s.len()
        invariant
            start <= i <= s.len(),
            d == s@.subrange(start as int, s.len() as int),
            all_digits(d.take(i - start)),
            acc as int == digits_value(d.take(i - start)),
            acc <= limit,
        decreases s.len() - i,
    {
        let c = s[i];
        let ghost k = i - start;
        assert(d.take(k + 1).drop_last() == d.take(k));
        assert(d[k] == c);
        if c < '0' || c > '9' {
            assert(!all_digits(d));
            return None;
        }
        let digit = (c as u32 - '0' as u32) as u64;
        assert(digit as int == c as int - '0' as int);
        if digit > limit || acc > (limit - digit) / 10 {
            proof {
                if digit <= limit {
                    assert(acc * 10 + digit > limit) by (nonlinear_arith)
                        requires
                            acc > (limit - digit) / 10,
                            digit <= limit,
                    ;
                }
                assert(all_digits(d.take(k + 1)));
                if all_digits(d) {
                    lemma_prefix_value_le(d, k + 1);
                }
            }
            return None;
        }
        proof {
            assert(acc * 10 + digit <= limit) by (nonlinear_arith)
                requires
                    acc <= (limit - digit) / 10,
                    digit <= limit,
            ;
        }
        acc = acc * 10 + digit;
        i = i + 1;
        assert(all_digits(d.take(i - start)));
    }
    assert(d.take(i - start) == d);
    Some(acc)
}

/// Whether `s[start..]` is one or more digits.
fn digits_from(s: &Vec<char>, start: usize) -> (r: bool)
    requires
        start <= s.len(),
    ensures
        r == (start < s.len() && all_digits(s@.subrange(start as int, s.len() as int))),
{
    let ghost d = s@.subrange(start as int, s.len() as int);
    let mut i: usize = start;
    while i < s.len()
        invariant
            start <= i <= s.len(),
            d == s@.subrange(start as int, s.len() as int),
            forall|k: int| 0 <= k < i - start ==> is_digit(#[trigger] d[k]),
        decreases s.len() - i,
    {
        if s[i] < '0' || s[i] > '9' {
            assert(!is_digit(d[i - start]));
            return false;
        }
        i = i + 1;
    }
    start < s.len()
}

/// Reads `s` as a bit: `Some(Some(false))` where it reads 0 as a `u64` (no
/// minus sign), `Some(Some(true))` where it reads 1 as a `u64`, `Some(None)`
/// for any other numeral (`-0` and `-1` included), and `None` where `s` is no
/// numeral at all.
pub fn read_bit(s: &str) -> (r: Option<Option<bool>>)
    ensures
        r is None <==> numeral_value(s@) is None,
        r == Some(Some(false)) <==> unsigned_value(s@, u64::MAX as int) == Some(0int),
        r == Some(Some(true)) <==> unsigned_value(s@, u64::MAX as int) == Some(1int),
{
    let cs = chars_of(s);
    let signed = cs.len() > 0 && (cs[0] == '+' || cs[0] == '-');
    let start: usize = if signed { 1 } else { 0 };
    let negative = signed && cs[0] == '-';
    let ghost d = cs@.subrange(start as int, cs.len() as int);
    proof {
        if signed {
            assert(d == s@.drop_first());
        } else {
            assert(d == s@);
        }
    }
    if !digits_from(&cs, start) {
        return None;
    }
    proof {
        lemma_digits_nonnegative(d);
        if cs.len() > 0 && cs@[0] == '-' {
            assert(!is_digit(s@[0]));
            assert(!all_digits(s@));
        }
    }
    if negative {
        return Some(None);
    }
    match parse_magnitude(&cs, start, 1) {
        Some(m) => if m == 0 {
            Some(Some(false))
        } else {
            Some(Some(true))
        },
        None => Some(None),
    }
}

/// The low 32 bits of `v`, as `v as u32` gives them.
pub fn low_u32(v: i64) -> (r: u32)
    ensures
        r as int == low32(v as int),
{
    let w: u128 = (v as i128 + 0x1_0000_0000_0000_0000i128) as u128;
    let r = (w % 0x1_0000_0000u128) as u32;
    proof {
        vstd::arithmetic::div_mod::lemma_mod_multiples_vanish(
            0x1_0000_0000,
            v as int,
            0x1_0000_0000,
        );
        assert(0x1_0000_0000 * 0x1_0000_0000 + v as int == w as int);
    }
    r
}

/// Reads `s` as an unsigned integer of maximum `limit`.
pub fn parse_unsigned(s: &str, limit: u64) -> (r: Option<u64>)
    ensures
        r is Some <==> unsigned_value(s@, limit as int) is Some,
        r matches Some(v) ==> unsigned_value(s@, limit as int) == Some(v as int),
{
    let cs = chars_of(s);
    if cs.len() > 0 && cs[0] == '+' {
        assert(cs@.subrange(1, cs@.len() as int) == s@.drop_first());
        parse_magnitude(&cs, 1, limit)
    } else {
        assert(cs@.subrange(0, cs@.len() as int) == s@);
        parse_magnitude(&cs, 0, limit)
    }
}

/// Reads `s` as a `u32`.
pub fn parse_u32(s: &str) -> (r: Option<u32>)
    ensures
        r is Some <==> unsigned_value(s@, u32::MAX as int) is Some,
        r matches Some(v) ==> unsigned_value(s@, u32::MAX as int) == Some(v as int),
{
    match parse_unsigned(s, u32::MAX as u64) {
        Some(v) => Some(v as u32),
        None => None,
    }
}

/// Reads `s` as a `u64`.
pub fn parse_u64(s: &str) -> (r: Option<u64>)
    ensures
        r is Some <==> unsigned_value(s@, u64::MAX as int) is Some,
        r matches Some(v) ==> unsigned_value(s@, u64::MAX as int) == Some(v as int),
{
    parse_unsigned(s, u64::MAX)
}

/// Reads `s` as an `i64`.
pub fn parse_i64(s: &str) -> (r: Option<i64>)
    ensures
        r is Some <==> i64_value(s@) is Some,
        r matches Some(v) ==> i64_value(s@) == Some(v as int),
{
    let cs = chars_of(s);
    if cs.len() > 0 && cs[0] == '-' {
        assert(cs@.subrange(1, cs@.len() as int) == s@.drop_first());
        match parse_magnitude(&cs, 1, 0x8000_0000_0000_0000u64) {
            Some(m) => {
                if m == 0x8000_0000_0000_0000u64 {
                    Some(i64::MIN)
                } else {
                    Some(-(m as i64))
                }
            },
            None => None,
        }
    } else {
        match parse_unsigned(s, 0x7fff_ffff_ffff_ffffu64) {
            Some(v) => Some(v as i64),
            None => None,
        }
    }
}

} // verus!
