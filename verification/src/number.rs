//! Integer literals as the standard library's `from_str_radix` reads them.
use vstd::prelude::*;

verus! {

/// The value of a byte as a digit in `radix` (`char::to_digit`): `0`-`9`, then
/// letters of either case from 10 upwards; `None` if that value is not below `radix`.
pub open spec fn digit_of(b: u8, radix: nat) -> Option<nat> {
    let v: int = if 48 <= b <= 57 {
        b - 48
    } else if 97 <= b <= 122 {
        b - 97 + 10
    } else if 65 <= b <= 90 {
        b - 65 + 10
    } else {
        99
    };
    if v < radix {
        Some(v as nat)
    } else {
        None
    }
}

/// The value of a sequence of digits in `radix`, most significant first;
/// `None` if one of them is not a digit.
pub open spec fn digits_value(d: Seq<u8>, radix: nat) -> Option<int>
    decreases d.len(),
{
    if d.len() == 0 {
        Some(0)
    } else {
        match (digits_value(d.drop_last(), radix), digit_of(d.last(), radix)) {
            (Some(a), Some(x)) => Some(a * radix + x),
            _ => None,
        }
    }
}

/// The integer that `from_str_radix` reads from `s`, before its range check:
/// an optional `+` (or `-` for signed types) followed by at least one digit.
pub open spec fn int_literal(s: Seq<u8>, radix: nat, signed: bool) -> Option<int> {
    if s.len() == 0 {
        None
    } else if (s[0] == 43 || s[0] == 45) && s.len() == 1 {
        None
    } else if s[0] == 43 {
        digits_value(s.drop_first(), radix)
    } else if s[0] == 45 && signed {
        match digits_value(s.drop_first(), radix) {
            Some(v) => Some(-v),
            None => None,
        }
    } else {
        digits_value(s, radix)
    }
}

/// What `from_str_radix` returns for a type whose values are `lo..=hi`.
pub open spec fn int_in_range(s: Seq<u8>, radix: nat, signed: bool, lo: int, hi: int) -> Option<int> {
    match int_literal(s, radix, signed) {
        Some(v) => if lo <= v <= hi {
            Some(v)
        } else {
            None
        },
        None => None,
    }
}

/// `i64::from_str` on the bytes `s`.
pub open spec fn i64_literal(s: Seq<u8>) -> Option<int> {
    int_in_range(s, 10, true, i64::MIN as int, i64::MAX as int)
}

/// `i32::from_str` on the bytes `s`.
pub open spec fn i32_literal(s: Seq<u8>) -> Option<int> {
    int_in_range(s, 10, true, i32::MIN as int, i32::MAX as int)
}

/// `u8::from_str_radix(s, 16)` on the bytes `s`.
pub open spec fn u8_hex_literal(s: Seq<u8>) -> Option<int> {
    int_in_range(s, 16, false, 0, 255)
}

proof fn lemma_digits_nonneg(d: Seq<u8>, radix: nat)
    requires
        radix >= 1,
    ensures
        digits_value(d, radix) matches Some(v) ==> v >= 0,
    decreases d.len(),
{
    if d.len() > 0 {
        lemma_digits_nonneg(d.drop_last(), radix);
        if let (Some(a), Some(x)) = (digits_value(d.drop_last(), radix), digit_of(d.last(), radix)) {
            assert(a * radix >= 0) by (nonlinear_arith)
                requires
                    a >= 0,
                    radix >= 1,
            ;
        }
    }
}

/// A prefix of valid digits is valid, and its value is at most that of the whole.
proof fn lemma_digits_prefix(d: Seq<u8>, radix: nat, j: int)
    requires
        radix >= 1,
        0 <= j <= d.len(),
        digits_value(d, radix) is Some,
    ensures
        digits_value(d.take(j), radix) is Some,
        digits_value(d.take(j), radix).unwrap() <= digits_value(d, radix).unwrap(),
    decreases d.len(),
{
    if j == d.len() {
        assert(d.take(j) =~= d);
    } else {
        let p = d.drop_last();
        assert(p.take(j) =~= d.take(j));
        lemma_digits_prefix(p, radix, j);
        lemma_digits_nonneg(p, radix);
        let a = digits_value(p, radix).unwrap();
        let v = digits_value(d, radix).unwrap();
        assert(a <= a * radix) by (nonlinear_arith)
            requires
                a >= 0,
                radix >= 1,
        ;
    }
}

/// Reads the digits `s[from..]` in `radix`, or `None` where one is not a digit
/// or the value exceeds `cap`.
fn read_digits(s: &[u8], from: usize, radix: u32, cap: i128) -> (r: Option<i128>)
    requires
        from <= s@.len(),
        2 <= radix <= 16,
        0 <= cap <= 0x1_0000_0000_0000_0000,
    ensures
        match digits_value(s@.skip(from as int), radix as nat) {
            Some(v) => if v <= cap {
                r == Some(v as i128)
            } else {
                r is None
            },
            None => r is None,
        },
{
    let ghost d = s@.skip(from as int);
    let mut acc: i128 = 0;
    let mut i: usize = from;
    while i < s.len()
        invariant
            from <= i <= s@.len(),
            d == s@.skip(from as int),
            2 <= radix <= 16,
            0 <= cap <= 0x1_0000_0000_0000_0000,
            0 <= acc <= cap,
            digits_value(d.take(i - from), radix as nat) == Some(acc as int),
        decreases s@.len() - i,
    {
        let b = s[i];
        let v: u32 = if 48 <= b && b <= 57 {
            (b - 48) as u32
        } else if 97 <= b && b <= 122 {
            (b - 97 + 10) as u32
        } else if 65 <= b && b <= 90 {
            (b - 65 + 10) as u32
        } else {
            99
        };
        assert(d.take(i - from + 1).drop_last() =~= d.take(i - from));
        assert(d.take(i - from + 1).last() == b);
        if v >= radix {
            proof {
                if digits_value(d, radix as nat) is Some {
                    lemma_digits_prefix(d, radix as nat, i - from + 1);
                }
            }
            return None;
        }
        assert(acc * radix <= 0x1_0000_0000_0000_0000 * 16) by (nonlinear_arith)
            requires
                0 <= acc <= 0x1_0000_0000_0000_0000,
                radix <= 16,
        ;
        let next: i128 = acc * (radix as i128) + (v as i128);
        if next > cap {
            proof {
                if digits_value(d, radix as nat) is Some {
                    lemma_digits_prefix(d, radix as nat, i - from + 1);
                }
            }
            return None;
        }
        acc = next;
        i = i + 1;
    }
    assert(d.take(i - from) =~= d);
    Some(acc)
}

/// `from_str_radix` for a type whose values are `lo..=hi` (radix 10 or 16).
pub fn parse_int(s: &[u8], radix: u32, signed: bool, lo: i64, hi: i64) -> (r: Option<i64>)
    requires
        2 <= radix <= 16,
        lo <= 0 <= hi,
    ensures
        match int_in_range(s@, radix as nat, signed, lo as int, hi as int) {
            Some(v) => r == Some(v as i64),
            None => r is None,
        },
{
    if s.len() == 0 {
        return None;
    }
    if (s[0] == 43 || s[0] == 45) && s.len() == 1 {
        return None;
    }
    if s[0] == 43 || (s[0] == 45 && signed) {
        let neg = s[0] == 45;
        assert(s@.skip(1) =~= s@.drop_first());
        let cap: i128 = if neg { -(lo as i128) } else { hi as i128 };
        proof {
            lemma_digits_nonneg(s@.drop_first(), radix as nat);
        }
        match read_digits(s, 1, radix, cap) {
            Some(v) => {
                if neg {
                    Some((-v) as i64)
                } else {
                    Some(v as i64)
                }
            },
            None => None,
        }
    } else {
        assert(s@.skip(0) =~= s@);
        proof {
            lemma_digits_nonneg(s@, radix as nat);
        }
        match read_digits(s, 0, radix, hi as i128) {
            Some(v) => Some(v as i64),
            None => None,
        }
    }
}

/// `i64::from_str` on the bytes `s` (`None` where it fails).
pub fn parse_i64(s: &[u8]) -> (r: Option<i64>)
    ensures
        match i64_literal(s@) {
            Some(v) => r == Some(v as i64),
            None => r is None,
        },
{
    parse_int(s, 10, true, i64::MIN, i64::MAX)
}

/// `i32::from_str` on the bytes `s` (`None` where it fails).
pub fn parse_i32(s: &[u8]) -> (r: Option<i32>)
    ensures
        match i32_literal(s@) {
            Some(v) => r == Some(v as i32),
            None => r is None,
        },
{
    match parse_int(s, 10, true, i32::MIN as i64, i32::MAX as i64) {
        Some(v) => Some(v as i32),
        None => None,
    }
}

/// `u8::from_str_radix(s, 16)` on the bytes `s` (`None` where it fails).
pub fn parse_u8_hex(s: &[u8]) -> (r: Option<u8>)
    ensures
        match u8_hex_literal(s@) {
            Some(v) => r == Some(v as u8),
            None => r is None,
        },
{
    match parse_int(s, 16, false, 0, 255) {
        Some(v) => Some(v as u8),
        None => None,
    }
}

} // verus!
