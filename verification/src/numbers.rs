//! Numeric directive values: crawl delays and request rates.
//!
//! A crawl delay is a non-negative decimal number of seconds with an optional
//! fractional part; it is stored as whole seconds plus nanoseconds.  A request
//! rate is `<integer>/<integer>`.  A value that does not parse leaves the
//! directive unset.

use vstd::prelude::*;
use crate::text::{DOT, SLASH, spec_find, lemma_find, find_byte};

verus! {

/// A crawl delay, as whole seconds plus nanoseconds.
#[derive(Clone, Copy, Debug, PartialEq, Eq, Structural)]
pub struct Delay {
    pub secs: u64,
    pub nanos: u32,
}

/// A request rate: at most `requests` requests per `seconds` seconds.
#[derive(Clone, Copy, Debug, PartialEq, Eq, Structural)]
pub struct RequestRate {
    pub requests: usize,
    pub seconds: usize,
}

/// An ASCII decimal digit.
pub open spec fn spec_is_digit(b: u8) -> bool {
    48 <= b && b <= 57
}

/// Every byte of `s` is a decimal digit.
pub open spec fn spec_all_digits(s: Seq<u8>) -> bool {
    forall|i: int| 0 <= i < s.len() ==> spec_is_digit(#[trigger] s[i])
}

/// The number written in `s`, read as decimal digits (0 when empty).
pub open spec fn spec_digits_val(s: Seq<u8>) -> int
    decreases s.len(),
{
    if s.len() == 0 {
        0
    } else {
        spec_digits_val(s.take(s.len() - 1)) * 10 + (s.last() - 48)
    }
}

/// Ten to the power `n`.
pub open spec fn spec_pow10(n: nat) -> int
    decreases n,
{
    if n == 0 {
        1
    } else {
        10 * spec_pow10((n - 1) as nat)
    }
}

/// A string of `n` digits holds a value below ten to the `n`.
pub proof fn lemma_digits_val_bounds(s: Seq<u8>)
    requires
        spec_all_digits(s),
    ensures
        0 <= spec_digits_val(s) < spec_pow10(s.len()),
    decreases s.len(),
{
    if s.len() > 0 {
        lemma_digits_val_bounds(s.take(s.len() - 1));
    }
}

/// Reading one more digit multiplies the value by ten and adds the digit.
pub proof fn lemma_digits_val_take_succ(s: Seq<u8>, i: int)
    requires
        0 <= i < s.len(),
    ensures
        spec_digits_val(s.take(i + 1)) == spec_digits_val(s.take(i)) * 10 + (s[i] - 48),
{
    assert(s.take(i + 1).take(i) =~= s.take(i));
    assert(s.take(i + 1).last() == s[i]);
}

/// The value of a digit string is at least the value of any of its prefixes.
pub proof fn lemma_digits_val_take_le(s: Seq<u8>, i: int)
    requires
        spec_all_digits(s),
        0 <= i <= s.len(),
    ensures
        spec_digits_val(s.take(i)) <= spec_digits_val(s),
    decreases s.len() - i,
{
    if i == s.len() {
        assert(s.take(i) =~= s);
    } else {
        lemma_digits_val_take_succ(s, i);
        assert(spec_all_digits(s.take(i)));
        lemma_digits_val_bounds(s.take(i));
        lemma_digits_val_take_le(s, i + 1);
    }
}

/// The digits of `s` as a `u64`: `None` when `s` holds a non-digit or the
/// value overflows.  An empty string reads as zero.
pub open spec fn spec_digits_u64(s: Seq<u8>) -> Option<u64> {
    if spec_all_digits(s) && spec_digits_val(s) <= u64::MAX {
        Some(spec_digits_val(s) as u64)
    } else {
        None
    }
}

/// Reads a digit string into a `u64`, detecting overflow exactly.
pub fn digits_u64(s: &[u8]) -> (r: Option<u64>)
    ensures
        r == spec_digits_u64(s@),
{
    let mut acc: u64 = 0;
    let mut i: usize = 0;
    proof {
        assert(s@.take(0) =~= Seq::<u8>::empty());
    }
    while i < s.len()
        invariant
            0 <= i <= s@.len(),
            forall|j: int| 0 <= j < i ==> spec_is_digit(#[trigger] s@[j]),
            acc == spec_digits_val(s@.take(i as int)),
        decreases s@.len() - i,
    {
        let b = s[i];
        if !(48 <= b && b <= 57) {
            return None;
        }
        let d: u64 = (b - 48) as u64;
        proof {
            lemma_digits_val_take_succ(s@, i as int);
            vstd::arithmetic::div_mod::lemma_fundamental_div_mod(u64::MAX as int, 10);
        }
        if acc > u64::MAX / 10 || (acc == u64::MAX / 10 && d > u64::MAX % 10) {
            proof {
                if spec_all_digits(s@) {
                    lemma_digits_val_take_le(s@, i + 1);
                }
            }
            return None;
        }
        acc = acc * 10 + d;
        i += 1;
    }
    proof {
        assert(s@.take(s@.len() as int) =~= s@);
    }
    Some(acc)
}

/// A whole directive value read as a `usize`: non-empty, all digits, in
/// range.  This is the reading a request-rate half gets.
pub open spec fn spec_parse_usize(s: Seq<u8>) -> Option<usize> {
    if s.len() > 0 && spec_all_digits(s) && spec_digits_val(s) <= usize::MAX {
        Some(spec_digits_val(s) as usize)
    } else {
        None
    }
}

/// Reads a non-empty digit string into a `usize`.
pub fn parse_usize(s: &[u8]) -> (r: Option<usize>)
    ensures
        r == spec_parse_usize(s@),
{
    if s.len() == 0 {
        return None;
    }
    match digits_u64(s) {
        Some(v) => {
            proof {
                assert(spec_all_digits(s@));
                lemma_digits_val_bounds(s@);
                assert(v as int == spec_digits_val(s@));
                assert((usize::MAX as u64) as int == usize::MAX as int);
            }
            if v <= usize::MAX as u64 {
                Some(v as usize)
            } else {
                None
            }
        },
        None => {
            proof {
                assert(usize::MAX as int <= u64::MAX as int);
            }
            None
        },
    }
}

/// The nanosecond part read from the fraction digits: the first nine digits,
/// padded with zeros on the right.
pub open spec fn spec_nanos_val(fp: Seq<u8>) -> int {
    if fp.len() >= 9 {
        spec_digits_val(fp.take(9))
    } else {
        spec_digits_val(fp) * spec_pow10((9 - fp.len()) as nat)
    }
}

/// The crawl-delay value: `digits`, `digits.digits`, `.digits` or `digits.`,
/// with at least one digit in all; anything else leaves the delay unset.
pub open spec fn spec_parse_delay(s: Seq<u8>) -> Option<Delay> {
    match spec_find(s, DOT) {
        None => match spec_digits_u64(s) {
            Some(v) => if s.len() > 0 {
                Some(Delay { secs: v, nanos: 0 })
            } else {
                None
            },
            None => None,
        },
        Some(i) => {
            let ip = s.take(i);
            let fp = s.skip(i + 1);
            if (ip.len() > 0 || fp.len() > 0) && spec_all_digits(fp) {
                match spec_digits_u64(ip) {
                    Some(v) => Some(Delay { secs: v, nanos: spec_nanos_val(fp) as u32 }),
                    None => None,
                }
            } else {
                None
            }
        },
    }
}

/// `spec_pow10` is monotone in its argument.
proof fn lemma_pow10_le(a: nat, b: nat)
    requires
        a <= b,
    ensures
        spec_pow10(a) <= spec_pow10(b),
    decreases b,
{
    if a < b {
        lemma_pow10_le(a, (b - 1) as nat);
        lemma_digits_pow10_pos(a);
    }
}

/// Ten to any power is positive.
proof fn lemma_digits_pow10_pos(n: nat)
    ensures
        spec_pow10(n) >= 1,
    decreases n,
{
    if n > 0 {
        lemma_digits_pow10_pos((n - 1) as nat);
    }
}

/// Reads the fraction digits of a delay into nanoseconds.
fn frac_nanos(fp: &[u8]) -> (r: u32)
    requires
        spec_all_digits(fp@),
    ensures
        r == spec_nanos_val(fp@),
        r < 1000000000,
{
    let k: usize = if fp.len() >= 9 {
        9
    } else {
        fp.len()
    };
    let mut acc: u32 = 0;
    let mut i: usize = 0;
    proof {
        assert(fp@.take(0) =~= Seq::<u8>::empty());
    }
    while i < k
        invariant
            spec_all_digits(fp@),
            k <= fp@.len(),
            k <= 9,
            0 <= i <= k,
            acc == spec_digits_val(fp@.take(i as int)),
            acc < spec_pow10(i as nat),
        decreases k - i,
    {
        let d: u32 = (fp[i] - 48) as u32;
        proof {
            lemma_digits_val_take_succ(fp@, i as int);
            assert(spec_all_digits(fp@.take(i + 1)));
            lemma_digits_val_bounds(fp@.take(i + 1));
            lemma_pow10_le((i + 1) as nat, 9);
            lemma_pow10_le(i as nat, 8nat);
            reveal_with_fuel(spec_pow10, 10);
            assert(spec_pow10(8) == 100000000);
            assert(spec_pow10(9) == 1000000000);
        }
        acc = acc * 10 + d;
        i += 1;
    }
    proof {
        assert(spec_pow10((k - k) as nat) == 1);
        assert(acc == spec_digits_val(fp@.take(k as int)) * spec_pow10((k - k) as nat));
    }
    // pad to nine digits: one multiplication by ten for each missing digit
    let mut m: usize = k;
    while m < 9
        invariant
            k <= m <= 9,
            k <= fp@.len(),
            k <= 9,
            acc == spec_digits_val(fp@.take(k as int)) * spec_pow10((m - k) as nat),
            acc < spec_pow10(m as nat),
        decreases 9 - m,
    {
        proof {
            reveal_with_fuel(spec_pow10, 10);
            lemma_pow10_le(m as nat, 8nat);
            assert(spec_pow10(8) == 100000000);
            assert(spec_pow10((m + 1 - k) as nat) == 10 * spec_pow10((m - k) as nat));
            assert(spec_digits_val(fp@.take(k as int)) * spec_pow10((m + 1 - k) as nat) == (
            spec_digits_val(fp@.take(k as int)) * spec_pow10((m - k) as nat)) * 10)
                by (nonlinear_arith)
                requires
                    spec_pow10((m + 1 - k) as nat) == 10 * spec_pow10((m - k) as nat),
            ;
        }
        acc = acc * 10;
        m += 1;
    }
    proof {
        reveal_with_fuel(spec_pow10, 10);
        assert(spec_pow10(9) == 1000000000);
        if fp@.len() >= 9 {
            assert(fp@.take(k as int) =~= fp@.take(9));
            assert(spec_pow10((9 - k) as nat) == 1);
            assert(acc == spec_digits_val(fp@.take(9)) * 1);
        } else {
            assert(fp@.take(k as int) =~= fp@);
        }
    }
    acc
}

/// Reads a crawl-delay value; `None` leaves the directive unset.
pub fn parse_delay(s: &[u8]) -> (r: Option<Delay>)
    ensures
        r == spec_parse_delay(s@),
{
    match find_byte(s, DOT) {
        None => {
            if s.len() == 0 {
                return None;
            }
            match digits_u64(s) {
                Some(v) => Some(Delay { secs: v, nanos: 0 }),
                None => None,
            }
        },
        Some(i) => {
            proof {
                lemma_find(s@, DOT);
            }
            let n = s.len();
            let ip = &s[0..i];
            let fp = &s[i + 1..n];
            if ip.len() == 0 && fp.len() == 0 {
                return None;
            }
            let mut fp_digits = true;
            let mut j: usize = 0;
            while j < fp.len()
                invariant
                    0 <= j <= fp@.len(),
                    fp_digits == (forall|t: int| 0 <= t < j ==> spec_is_digit(#[trigger] fp@[t])),
                decreases fp@.len() - j,
            {
                if !(48 <= fp[j] && fp[j] <= 57) {
                    fp_digits = false;
                    proof {
                        assert(!spec_is_digit(fp@[j as int]));
                    }
                }
                j += 1;
            }
            if !fp_digits {
                return None;
            }
            match digits_u64(ip) {
                Some(v) => {
                    let nanos = frac_nanos(fp);
                    proof {
                        if fp@.len() >= 9 {
                            assert(spec_all_digits(fp@.take(9)));
                            lemma_digits_val_bounds(fp@.take(9));
                        } else {
                            lemma_digits_val_bounds(fp@);
                        }
                    }
                    Some(Delay { secs: v, nanos })
                },
                None => None,
            }
        },
    }
}

/// The request-rate value: exactly one solidus, an integer on each side.
pub open spec fn spec_parse_rate(s: Seq<u8>) -> Option<RequestRate> {
    match spec_find(s, SLASH) {
        None => None,
        Some(i) => {
            let a = s.take(i);
            let b = s.skip(i + 1);
            match (spec_find(b, SLASH), spec_parse_usize(a), spec_parse_usize(b)) {
                (None, Some(x), Some(y)) => Some(RequestRate { requests: x, seconds: y }),
                _ => None,
            }
        },
    }
}

/// Reads a request-rate value; `None` leaves the directive unset.
pub fn parse_rate(s: &[u8]) -> (r: Option<RequestRate>)
    ensures
        r == spec_parse_rate(s@),
{
    match find_byte(s, SLASH) {
        None => None,
        Some(i) => {
            proof {
                lemma_find(s@, SLASH);
            }
            let n = s.len();
            let a = &s[0..i];
            let b = &s[i + 1..n];
            if let Some(_) = find_byte(b, SLASH) {
                return None;
            }
            match (parse_usize(a), parse_usize(b)) {
                (Some(x), Some(y)) => Some(RequestRate { requests: x, seconds: y }),
                _ => None,
            }
        },
    }
}

} // verus!
