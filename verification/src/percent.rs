//! Percent-decoding of directive values and query URLs.
//!
//! A value is decoded byte by byte: a `%` followed by two hexadecimal digits
//! becomes the encoded byte, anything else passes through.  A decoded value
//! that is not valid UTF-8 is treated as decoding to the empty string.

use vstd::prelude::*;
use crate::text::PERCENT;

verus! {

/// An ASCII hexadecimal digit.
pub open spec fn spec_is_hex(b: u8) -> bool {
    (48 <= b && b <= 57) || (97 <= b && b <= 102) || (65 <= b && b <= 70)
}

/// The numeric value of a hexadecimal digit.
pub open spec fn spec_hex_val(b: u8) -> u8 {
    if 48 <= b && b <= 57 {
        (b - 48) as u8
    } else if 97 <= b && b <= 102 {
        (b - 87) as u8
    } else {
        (b - 55) as u8
    }
}

/// Percent-decoding: each `%hh` run becomes one byte, all else is copied.
pub open spec fn spec_pct_decode(s: Seq<u8>) -> Seq<u8>
    decreases s.len(),
{
    if s.len() == 0 {
        Seq::empty()
    } else if s[0] == PERCENT && s.len() >= 3 && spec_is_hex(s[1]) && spec_is_hex(s[2]) {
        seq![(spec_hex_val(s[1]) * 16 + spec_hex_val(s[2])) as u8] + spec_pct_decode(s.skip(3))
    } else {
        seq![s[0]] + spec_pct_decode(s.skip(1))
    }
}

/// The percent-decoded copy of `s`.
pub fn pct_decode(s: &[u8]) -> (r: Vec<u8>)
    ensures
        r@ == spec_pct_decode(s@),
{
    proof {
        assert(s@.skip(0) =~= s@);
    }
    let mut out: Vec<u8> = Vec::new();
    let mut i: usize = 0;
    while i < s.len()
        invariant
            0 <= i <= s@.len(),
            out@ + spec_pct_decode(s@.skip(i as int)) == spec_pct_decode(s@),
        decreases s@.len() - i,
    {
        let b = s[i];
        proof {
            let t = s@.skip(i as int);
            assert(t[0] == s@[i as int]);
            if t.len() >= 2 {
                assert(t[1] == s@[i + 1]);
            }
            if t.len() >= 3 {
                assert(t[2] == s@[i + 2]);
            }
        }
        if b == PERCENT && s.len() - i > 2 && (48 <= s[i + 1] && s[i + 1] <= 57 || 97 <= s[i + 1]
            && s[i + 1] <= 102 || 65 <= s[i + 1] && s[i + 1] <= 70) && (48 <= s[i + 2] && s[i + 2]
            <= 57 || 97 <= s[i + 2] && s[i + 2] <= 102 || 65 <= s[i + 2] && s[i + 2] <= 70) {
            let h = s[i + 1];
            let l = s[i + 2];
            let hv: u8 = if h <= 57 {
                h - 48
            } else if h >= 97 {
                h - 87
            } else {
                h - 55
            };
            let lv: u8 = if l <= 57 {
                l - 48
            } else if l >= 97 {
                l - 87
            } else {
                l - 55
            };
            out.push(hv * 16 + lv);
            proof {
                assert(s@.skip(i as int).skip(3) =~= s@.skip(i + 3));
                assert(out@ + spec_pct_decode(s@.skip(i + 3)) =~= spec_pct_decode(s@));
            }
            i += 3;
        } else {
            out.push(b);
            proof {
                assert(s@.skip(i as int).skip(1) =~= s@.skip(i + 1));
                assert(out@ + spec_pct_decode(s@.skip(i + 1)) =~= spec_pct_decode(s@));
            }
            i += 1;
        }
    }
    proof {
        assert(s@.skip(s@.len() as int) =~= Seq::<u8>::empty());
        assert(out@ + spec_pct_decode(s@.skip(s@.len() as int)) =~= out@);
    }
    out
}

/// A UTF-8 continuation byte.
pub open spec fn spec_is_cont(b: u8) -> bool {
    128 <= b && b <= 191
}

/// Whether `s` is well-formed UTF-8.
pub open spec fn spec_is_utf8(s: Seq<u8>) -> bool
    decreases s.len(),
{
    if s.len() == 0 {
        true
    } else {
        let b0 = s[0];
        if b0 < 128 {
            spec_is_utf8(s.skip(1))
        } else if 194 <= b0 && b0 <= 223 {
            s.len() >= 2 && spec_is_cont(s[1]) && spec_is_utf8(s.skip(2))
        } else if b0 == 224 {
            s.len() >= 3 && 160 <= s[1] && s[1] <= 191 && spec_is_cont(s[2]) && spec_is_utf8(
                s.skip(3),
            )
        } else if (225 <= b0 && b0 <= 236) || b0 == 238 || b0 == 239 {
            s.len() >= 3 && spec_is_cont(s[1]) && spec_is_cont(s[2]) && spec_is_utf8(s.skip(3))
        } else if b0 == 237 {
            s.len() >= 3 && 128 <= s[1] && s[1] <= 159 && spec_is_cont(s[2]) && spec_is_utf8(
                s.skip(3),
            )
        } else if b0 == 240 {
            s.len() >= 4 && 144 <= s[1] && s[1] <= 191 && spec_is_cont(s[2]) && spec_is_cont(s[3])
                && spec_is_utf8(s.skip(4))
        } else if 241 <= b0 && b0 <= 243 {
            s.len() >= 4 && spec_is_cont(s[1]) && spec_is_cont(s[2]) && spec_is_cont(s[3])
                && spec_is_utf8(s.skip(4))
        } else if b0 == 244 {
            s.len() >= 4 && 128 <= s[1] && s[1] <= 143 && spec_is_cont(s[2]) && spec_is_cont(s[3])
                && spec_is_utf8(s.skip(4))
        } else {
            false
        }
    }
}

/// UTF-8 validity check over a byte slice.
pub fn is_utf8(s: &[u8]) -> (r: bool)
    ensures
        r == spec_is_utf8(s@),
{
    proof {
        assert(s@.skip(0) =~= s@);
    }
    let mut i: usize = 0;
    while i < s.len()
        invariant
            0 <= i <= s@.len(),
            spec_is_utf8(s@) == spec_is_utf8(s@.skip(i as int)),
        decreases s@.len() - i,
    {
        proof {
            let t = s@.skip(i as int);
            assert(t[0] == s@[i as int]);
            if t.len() >= 2 {
                assert(t[1] == s@[i + 1]);
            }
            if t.len() >= 3 {
                assert(t[2] == s@[i + 2]);
            }
            if t.len() >= 4 {
                assert(t[3] == s@[i + 3]);
            }
            assert(t.skip(1) =~= s@.skip(i + 1));
            if t.len() >= 2 {
                assert(t.skip(2) =~= s@.skip(i + 2));
            }
            if t.len() >= 3 {
                assert(t.skip(3) =~= s@.skip(i + 3));
            }
            if t.len() >= 4 {
                assert(t.skip(4) =~= s@.skip(i + 4));
            }
        }
        let b0 = s[i];
        if b0 < 128 {
            i += 1;
        } else if 194 <= b0 && b0 <= 223 {
            if s.len() - i > 1 && 128 <= s[i + 1] && s[i + 1] <= 191 {
                i += 2;
            } else {
                return false;
            }
        } else if b0 == 224 {
            if s.len() - i > 2 && 160 <= s[i + 1] && s[i + 1] <= 191 && 128 <= s[i + 2] && s[i + 2]
                <= 191 {
                i += 3;
            } else {
                return false;
            }
        } else if (225 <= b0 && b0 <= 236) || b0 == 238 || b0 == 239 {
            if s.len() - i > 2 && 128 <= s[i + 1] && s[i + 1] <= 191 && 128 <= s[i + 2] && s[i + 2]
                <= 191 {
                i += 3;
            } else {
                return false;
            }
        } else if b0 == 237 {
            if s.len() - i > 2 && 128 <= s[i + 1] && s[i + 1] <= 159 && 128 <= s[i + 2] && s[i + 2]
                <= 191 {
                i += 3;
            } else {
                return false;
            }
        } else if b0 == 240 {
            if s.len() - i > 3 && 144 <= s[i + 1] && s[i + 1] <= 191 && 128 <= s[i + 2] && s[i + 2]
                <= 191 && 128 <= s[i + 3] && s[i + 3] <= 191 {
                i += 4;
            } else {
                return false;
            }
        } else if 241 <= b0 && b0 <= 243 {
            if s.len() - i > 3 && 128 <= s[i + 1] && s[i + 1] <= 191 && 128 <= s[i + 2] && s[i + 2]
                <= 191 && 128 <= s[i + 3] && s[i + 3] <= 191 {
                i += 4;
            } else {
                return false;
            }
        } else if b0 == 244 {
            if s.len() - i > 3 && 128 <= s[i + 1] && s[i + 1] <= 143 && 128 <= s[i + 2] && s[i + 2]
                <= 191 && 128 <= s[i + 3] && s[i + 3] <= 191 {
                i += 4;
            } else {
                return false;
            }
        } else {
            return false;
        }
    }
    proof {
        assert(s@.skip(s@.len() as int) =~= Seq::<u8>::empty());
    }
    true
}

/// The decoded form of a directive value or query URL: percent-decoded, or
/// empty when the decoded bytes are not valid UTF-8.
pub open spec fn spec_decoded(s: Seq<u8>) -> Seq<u8> {
    let d = spec_pct_decode(s);
    if spec_is_utf8(d) {
        d
    } else {
        Seq::empty()
    }
}

/// Percent-decode `s`; an invalid UTF-8 result decodes to the empty string.
pub fn decode_value(s: &[u8]) -> (r: Vec<u8>)
    ensures
        r@ == spec_decoded(s@),
{
    let d = pct_decode(s);
    if is_utf8(d.as_slice()) {
        d
    } else {
        Vec::new()
    }
}

} // verus!
