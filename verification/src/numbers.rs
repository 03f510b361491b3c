//! Decimal and hexadecimal text for integers, and a parser for signed
//! decimal literals with the exact acceptance rules of `str::parse::<i32>`.

use vstd::prelude::*;
use crate::text::is_digit_char;
use crate::text::is_digit;

verus! {

// ---------------------------------------------------------------------------
// Writing numbers
// ---------------------------------------------------------------------------

/// The character for the decimal digit `d`.
pub open spec fn digit_char(d: int) -> char
    recommends
        0 <= d <= 9,
{
    ((0x30 + d) as u8) as char
}

/// The decimal digits of `n`, most significant first, no sign and no
/// leading zeros (`0` itself is one digit).
pub open spec fn dec_str(n: nat) -> Seq<char>
    decreases n,
{
    if n < 10 {
        seq![digit_char(n as int)]
    } else {
        dec_str(n / 10) + seq![digit_char((n % 10) as int)]
    }
}

/// The decimal form of `n`, with a leading minus sign when negative.
pub open spec fn int_str(n: int) -> Seq<char> {
    if n < 0 {
        seq!['-'] + dec_str((-n) as nat)
    } else {
        dec_str(n as nat)
    }
}

fn digit_of(d: u64) -> (c: char)
    requires
        d <= 9,
    ensures
        c == digit_char(d as int),
{
    ((0x30 + d) as u8) as char
}

/// The decimal digits of `n`.
pub fn u64_to_chars(n: u64) -> (r: Vec<char>)
    ensures
        r@ == dec_str(n as nat),
{
    let mut out: Vec<char> = Vec::new();
    let mut m: u64 = n;
    while m >= 10
        invariant
            dec_str(n as nat) =~= dec_str(m as nat) + out@,
        decreases m,
    {
        let ghost prev = out@;
        let d = m % 10;
        out.insert(0, digit_of(d));
        proof {
            assert(dec_str(m as nat) + prev =~= dec_str((m / 10) as nat) + out@);
        }
        m = m / 10;
    }
    let ghost prev = out@;
    out.insert(0, digit_of(m));
    proof {
        assert(dec_str(m as nat) + prev =~= out@);
    }
    out
}

/// The decimal form of `n`, with a sign when negative.
pub fn i64_to_chars(n: i64) -> (r: Vec<char>)
    requires
        n > i64::MIN,
    ensures
        r@ == int_str(n as int),
{
    if n < 0 {
        let mut r = u64_to_chars((-n) as u64);
        let ghost digits = r@;
        r.insert(0, '-');
        proof {
            assert(r@ =~= seq!['-'] + digits);
        }
        r
    } else {
        u64_to_chars(n as u64)
    }
}

/// The character for the hexadecimal digit `d`, lower case.
pub open spec fn hex_digit_char(d: int) -> char
    recommends
        0 <= d <= 15,
{
    if d < 10 {
        ((0x30 + d) as u8) as char
    } else {
        ((0x61 + (d - 10)) as u8) as char
    }
}

/// The lower-case hexadecimal digits of `n`, no leading zeros, as the `{:x}`
/// format writes an unsigned integer.
pub open spec fn hex_str(n: nat) -> Seq<char>
    decreases n,
{
    if n < 16 {
        seq![hex_digit_char(n as int)]
    } else {
        hex_str(n / 16) + seq![hex_digit_char((n % 16) as int)]
    }
}

fn hex_digit_of(d: u8) -> (c: char)
    requires
        d <= 15,
    ensures
        c == hex_digit_char(d as int),
{
    if d < 10 {
        ((0x30 + d) as u8) as char
    } else {
        ((0x61 + (d - 10)) as u8) as char
    }
}

/// The hexadecimal form of one byte, one or two digits.
pub fn u8_to_hex_chars(b: u8) -> (r: Vec<char>)
    ensures
        r@ == hex_str(b as nat),
{
    let mut out: Vec<char> = Vec::new();
    if b < 16 {
        out.push(hex_digit_of(b));
        proof {
            assert(out@ =~= hex_str(b as nat));
        }
    } else {
        out.push(hex_digit_of(b / 16));
        out.push(hex_digit_of(b % 16));
        proof {
            assert(hex_str((b / 16) as nat) =~= seq![hex_digit_char((b / 16) as int)]);
            assert(out@ =~= hex_str(b as nat));
        }
    }
    out
}

// ---------------------------------------------------------------------------
// Reading numbers
// ---------------------------------------------------------------------------

/// Every character of `s` is a decimal digit.
pub open spec fn all_digits(s: Seq<char>) -> bool {
    forall|i: int| 0 <= i < s.len() ==> is_digit_char(s[i])
}

/// The numeric value of one digit character.
pub open spec fn digit_val(c: char) -> int
    recommends
        is_digit_char(c),
{
    c as u32 - 0x30
}

/// The value of a string of decimal digits.
pub open spec fn digits_val(s: Seq<char>) -> int
    decreases s.len(),
{
    if s.len() == 0 {
        0
    } else {
        digits_val(s.drop_last()) * 10 + digit_val(s.last())
    }
}

pub proof fn lemma_digits_val_nonneg(s: Seq<char>)
    requires
        all_digits(s),
    ensures
        digits_val(s) >= 0,
    decreases s.len(),
{
    if s.len() > 0 {
        assert(all_digits(s.drop_last()));
        lemma_digits_val_nonneg(s.drop_last());
    }
}

/// The value denoted by `s` under the grammar of `str::parse::<i32>`
/// (an optional `+` or `-` sign, then one or more decimal digits),
/// before any range check; `None` when `s` is not of that shape.
pub open spec fn spec_parse_int(s: Seq<char>) -> Option<int> {
    if s.len() == 0 {
        None
    } else if s[0] == '+' || s[0] == '-' {
        let body = s.subrange(1, s.len() as int);
        if body.len() > 0 && all_digits(body) {
            if s[0] == '-' {
                Some(-digits_val(body))
            } else {
                Some(digits_val(body))
            }
        } else {
            None
        }
    } else if all_digits(s) {
        Some(digits_val(s))
    } else {
        None
    }
}

/// What `str::parse::<i32>` accepts: the value of `spec_parse_int` when it
/// lies within the range of `i32`.
pub open spec fn spec_parse_i32(s: Seq<char>) -> Option<int> {
    match spec_parse_int(s) {
        Some(v) => if -0x8000_0000 <= v && v <= 0x7fff_ffff {
            Some(v)
        } else {
            None
        },
        None => None,
    }
}

/// Parses a signed decimal literal exactly as `str::parse::<i32>` does.
pub fn parse_i32(s: &Vec<char>) -> (r: Option<i32>)
    ensures
        spec_parse_i32(s@) == (match r {
            Some(v) => Some(v as int),
            None => None::<int>,
        }),
{
    let n = s.len();
    if n == 0 {
        return None;
    }
    let neg = s[0] == '-';
    let has_sign = neg || s[0] == '+';
    let start: usize = if has_sign {
        1
    } else {
        0
    };
    if start == n {
        return None;
    }
    let ghost body = s@.subrange(start as int, s@.len() as int);
    let mut acc: u64 = 0;
    let mut over = false;
    let mut i = start;
    while i < n
        invariant
            n == s@.len(),
            start <= i <= n,
            start < n,
            start == 0 || start == 1,
            (start == 1) == (s@[0] == '+' || s@[0] == '-'),
            body == s@.subrange(start as int, s@.len() as int),
            forall|k: int| start <= k < i ==> is_digit_char(s@[k]),
            !over ==> acc == digits_val(s@.subrange(start as int, i as int)) && acc
                <= 0x8000_0000,
            over ==> digits_val(s@.subrange(start as int, i as int)) > 0x8000_0000,
        decreases n - i,
    {
        let c = s[i];
        if !is_digit(c) {
            proof {
                assert(body[i - start] == s@[i as int]);
                assert(!all_digits(body));
                if start == 0 {
                    assert(body =~= s@);
                }
            }
            return None;
        }
        let ghost pre = s@.subrange(start as int, i as int);
        let ghost post = s@.subrange(start as int, i + 1 as int);
        proof {
            assert(post.drop_last() =~= pre);
            assert(post.last() == s@[i as int]);
            assert(all_digits(pre));
            lemma_digits_val_nonneg(pre);
            assert(digits_val(post) == digits_val(pre) * 10 + digit_val(s@[i as int]));
            assert(digits_val(pre) * 10 >= digits_val(pre));
        }
        let d = (c as u32) as u64 - 0x30;
        proof {
            assert(d == digit_val(s@[i as int]));
        }
        if !over {
            let next = acc * 10 + d;
            if next > 0x8000_0000 {
                over = true;
            } else {
                acc = next;
            }
        }
        i += 1;
    }
    proof {
        assert(s@.subrange(start as int, n as int) == body);
        assert(all_digits(body));
        lemma_digits_val_nonneg(body);
        if start == 1 {
            assert(s@[0] == '+' || s@[0] == '-');
            assert(body.len() > 0);
        } else {
            assert(!(s@[0] == '+' || s@[0] == '-'));
            assert(body =~= s@);
        }
    }
    if over {
        return None;
    }
    if neg {
        if acc == 0x8000_0000 {
            Some(i32::MIN)
        } else {
            Some(-(acc as i32))
        }
    } else {
        if acc > 0x7fff_ffff {
            None
        } else {
            Some(acc as i32)
        }
    }
}

} // verus!
