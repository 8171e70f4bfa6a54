//! Exact fixed-point monetary amounts.
use vstd::prelude::*;
use crate::bytes::{ByteClass, in_class};

verus! {

/// A non-negative monetary value held exactly, in hundredths of the currency unit.
#[derive(Clone, Copy, Debug, PartialEq, Eq, Structural)]
pub struct Amount {
    pub hundredths: u128,
}

impl Amount {
    /// The zero amount.
    pub fn zero() -> (r: Amount)
        ensures
            r.hundredths == 0,
    {
        Amount { hundredths: 0 }
    }
}

/// The value of the decimal digits in `s[lo..hi]`, thousands separators skipped.
pub open spec fn digits_value(s: Seq<u8>, lo: int, hi: int) -> nat
    decreases hi - lo,
{
    if hi <= lo {
        0
    } else if s[hi - 1] == 44u8 {
        digits_value(s, lo, hi - 1)
    } else {
        digits_value(s, lo, hi - 1) * 10 + (s[hi - 1] - 48) as nat
    }
}

/// Taking in more digits never lowers the value.
pub proof fn lemma_digits_value_grows(s: Seq<u8>, lo: int, mid: int, hi: int)
    requires
        lo <= mid <= hi <= s.len(),
        0 <= lo,
        forall|j: int| lo <= j < hi ==> in_class(ByteClass::DigitOrComma, #[trigger] s[j]),
    ensures
        digits_value(s, lo, mid) <= digits_value(s, lo, hi),
    decreases hi - mid,
{
    if mid < hi {
        lemma_digits_value_grows(s, lo, mid, hi - 1);
        assert(in_class(ByteClass::DigitOrComma, s[hi - 1]));
    }
}

/// The value of the digits in `s[lo..hi]`, or `None` where it exceeds `u128::MAX`.
pub fn digits_value_u128(s: &[u8], lo: usize, hi: usize) -> (r: Option<u128>)
    requires
        lo <= hi <= s@.len(),
        forall|j: int| lo <= j < hi ==> in_class(ByteClass::DigitOrComma, #[trigger] s@[j]),
    ensures
        match r {
            Some(v) => v == digits_value(s@, lo as int, hi as int),
            None => digits_value(s@, lo as int, hi as int) > u128::MAX,
        },
{
    let mut v: u128 = 0;
    let mut j = lo;
    while j < hi
        invariant
            lo <= j <= hi <= s@.len(),
            forall|k: int| lo <= k < hi ==> in_class(ByteClass::DigitOrComma, #[trigger] s@[k]),
            v == digits_value(s@, lo as int, j as int),
        decreases hi - j,
    {
        assert(in_class(ByteClass::DigitOrComma, s@[j as int]));
        if s[j] != 44 {
            let d = (s[j] - 48) as u128;
            match v.checked_mul(10) {
                None => {
                    proof {
                        lemma_digits_value_grows(s@, lo as int, j + 1, hi as int);
                    }
                    return None;
                },
                Some(t) => match t.checked_add(d) {
                    None => {
                        proof {
                            lemma_digits_value_grows(s@, lo as int, j + 1, hi as int);
                        }
                        return None;
                    },
                    Some(u) => {
                        v = u;
                    },
                },
            }
        }
        j = j + 1;
    }
    Some(v)
}

} // verus!
