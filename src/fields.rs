//! The fields of a record in a content stream: delimited text literals of a fixed shape.
//!
//! Each field first skips to the next `(` at or after the cursor, so that drawing
//! instructions between two literals are passed over.
use vstd::prelude::*;
use crate::amount::{digits_value, digits_value_u128};
use crate::bytes::{
    ByteClass, class_run_end, find_byte, find_from, has_lit, is_digit, lemma_find_from, lemma_run_end,
    lit_at, run_end,
};

verus! {

/// The byte that opens a text literal, `(`.
pub const OPEN: u8 = 40;

/// The byte that closes a text literal, `)`.
pub const CLOSE: u8 = 41;

/// The bytes of the Apple Pay in-app payment-method marker, `(IAP - \(AP-PAY\)-)`.
pub open spec fn iap_marker() -> Seq<u8> {
    seq![40u8, 73u8, 65u8, 80u8, 32u8, 45u8, 32u8, 92u8, 40u8, 65u8, 80u8, 45u8, 80u8, 65u8, 89u8, 92u8, 41u8, 45u8, 41u8]
}

fn iap_marker_bytes() -> (r: [u8; 19])
    ensures
        r@ == iap_marker(),
{
    let r: [u8; 19] = [40, 73, 65, 80, 32, 45, 32, 92, 40, 65, 80, 45, 80, 65, 89, 92, 41, 45, 41];
    assert(r@ =~= iap_marker());
    r
}

/// The bytes of the Apple Pay contactless payment-method marker, `(NFC - \(AP-PAY\)-)`.
pub open spec fn nfc_marker() -> Seq<u8> {
    seq![40u8, 78u8, 70u8, 67u8, 32u8, 45u8, 32u8, 92u8, 40u8, 65u8, 80u8, 45u8, 80u8, 65u8, 89u8, 92u8, 41u8, 45u8, 41u8]
}

fn nfc_marker_bytes() -> (r: [u8; 19])
    ensures
        r@ == nfc_marker(),
{
    let r: [u8; 19] = [40, 78, 70, 67, 32, 45, 32, 92, 40, 65, 80, 45, 80, 65, 89, 92, 41, 45, 41];
    assert(r@ =~= nfc_marker());
    r
}

/// The bytes of the credit marker, `(CR)`.
pub open spec fn credit_marker() -> Seq<u8> {
    seq![40u8, 67u8, 82u8, 41u8]
}

fn credit_marker_bytes() -> (r: [u8; 4])
    ensures
        r@ == credit_marker(),
{
    let r: [u8; 4] = [40, 67, 82, 41];
    assert(r@ =~= credit_marker());
    r
}

/// The bytes of the label of the cumulative credits total, `( Payments/Credits)`.
pub open spec fn credits_label() -> Seq<u8> {
    seq![40u8, 32u8, 80u8, 97u8, 121u8, 109u8, 101u8, 110u8, 116u8, 115u8, 47u8, 67u8, 114u8, 101u8, 100u8, 105u8, 116u8, 115u8, 41u8]
}

pub(crate) fn credits_label_bytes() -> (r: [u8; 19])
    ensures
        r@ == credits_label(),
{
    let r: [u8; 19] = [40, 32, 80, 97, 121, 109, 101, 110, 116, 115, 47, 67, 114, 101, 100, 105, 116, 115, 41];
    assert(r@ =~= credits_label());
    r
}

/// The bytes of the label of the cumulative debits total, `( New charges/debits)`.
pub open spec fn debits_label() -> Seq<u8> {
    seq![40u8, 32u8, 78u8, 101u8, 119u8, 32u8, 99u8, 104u8, 97u8, 114u8, 103u8, 101u8, 115u8, 47u8, 100u8, 101u8, 98u8, 105u8, 116u8, 115u8, 41u8]
}

pub(crate) fn debits_label_bytes() -> (r: [u8; 21])
    ensures
        r@ == debits_label(),
{
    let r: [u8; 21] = [40, 32, 78, 101, 119, 32, 99, 104, 97, 114, 103, 101, 115, 47, 100, 101, 98, 105, 116, 115, 41];
    assert(r@ =~= debits_label());
    r
}

/// The three-letter abbreviation of month `m` (1 to 12).
pub open spec fn month_name(m: int) -> Seq<u8> {
    if m == 1 {
        seq![74u8, 65u8, 78u8]
    } else if m == 2 {
        seq![70u8, 69u8, 66u8]
    } else if m == 3 {
        seq![77u8, 65u8, 82u8]
    } else if m == 4 {
        seq![65u8, 80u8, 82u8]
    } else if m == 5 {
        seq![77u8, 65u8, 89u8]
    } else if m == 6 {
        seq![74u8, 85u8, 78u8]
    } else if m == 7 {
        seq![74u8, 85u8, 76u8]
    } else if m == 8 {
        seq![65u8, 85u8, 71u8]
    } else if m == 9 {
        seq![83u8, 69u8, 80u8]
    } else if m == 10 {
        seq![79u8, 67u8, 84u8]
    } else if m == 11 {
        seq![78u8, 79u8, 86u8]
    } else if m == 12 {
        seq![68u8, 69u8, 67u8]
    } else {
        seq![]
    }
}

fn month_name_bytes(m: u8) -> (r: [u8; 3])
    requires
        1 <= m <= 12,
    ensures
        r@ == month_name(m as int),
{
    let r: [u8; 3] = match m {
        1 => [74, 65, 78],
        2 => [70, 69, 66],
        3 => [77, 65, 82],
        4 => [65, 80, 82],
        5 => [77, 65, 89],
        6 => [74, 85, 78],
        7 => [74, 85, 76],
        8 => [65, 85, 71],
        9 => [83, 69, 80],
        10 => [79, 67, 84],
        11 => [78, 79, 86],
        _ => [68, 69, 67],
    };
    assert(r@ =~= month_name(m as int));
    r
}

/// The month whose abbreviation starts at `k`, searching from month `m`; 0 if none.
pub open spec fn month_from(s: Seq<u8>, k: int, m: int) -> int
    decreases 13 - m,
{
    if m < 1 || m > 12 {
        0
    } else if has_lit(s, k, month_name(m)) {
        m
    } else {
        month_from(s, k, m + 1)
    }
}

/// The month (1 to 12) whose abbreviation starts at `k`; 0 if none.
pub open spec fn month_at(s: Seq<u8>, k: int) -> int {
    month_from(s, k, 1)
}

/// A date literal `(DDMON)`: the day, the month and the end of the literal.
pub open spec fn date_field(s: Seq<u8>, i: int) -> Option<(int, int, int)> {
    match find_from(s, OPEN, i) {
        None => None,
        Some(k) => if k + 7 <= s.len() && is_digit(s[k + 1]) && is_digit(s[k + 2]) && month_at(
            s,
            k + 3,
        ) != 0 && s[k + 6] == CLOSE {
            Some(((s[k + 1] - 48) * 10 + (s[k + 2] - 48), month_at(s, k + 3), k + 7))
        } else {
            None
        },
    }
}

/// A payment-method marker: the end of the marker.
pub open spec fn method_field(s: Seq<u8>, i: int) -> Option<int> {
    match find_from(s, OPEN, i) {
        None => None,
        Some(k) => if has_lit(s, k, iap_marker()) {
            Some(k + iap_marker().len())
        } else if has_lit(s, k, nfc_marker()) {
            Some(k + nfc_marker().len())
        } else {
            None
        },
    }
}

/// A description literal: the bounds of its content and the end of the literal.
pub open spec fn desc_field(s: Seq<u8>, i: int) -> Option<(int, int, int)> {
    match find_from(s, OPEN, i) {
        None => None,
        Some(k) => match find_from(s, CLOSE, k + 1) {
            None => None,
            Some(j) => Some((k + 1, j, j + 1)),
        },
    }
}

/// A location literal of letters, digits and blanks: the end of the literal.
pub open spec fn location_field(s: Seq<u8>, i: int) -> Option<int> {
    match find_from(s, OPEN, i) {
        None => None,
        Some(k) => {
            let j = run_end(s, k + 1, ByteClass::AlnumOrBlank);
            if j < s.len() && s[j] == CLOSE {
                Some(j + 1)
            } else {
                None
            }
        },
    }
}

/// The value in hundredths of an amount literal `(d,ddd.dd)` whose integer part is `s[lo..hi]`.
pub open spec fn amount_value(s: Seq<u8>, lo: int, hi: int) -> int {
    digits_value(s, lo, hi) * 100 + (s[hi + 1] - 48) * 10 + (s[hi + 2] - 48)
}

/// `s[lo..hi]`, a run of digits and commas, has the shape `digits[,digits]*`: it
/// starts and ends with a digit, and no two commas follow each other.
pub open spec fn is_grouped(s: Seq<u8>, lo: int, hi: int) -> bool {
    &&& lo < hi
    &&& is_digit(s[lo])
    &&& is_digit(s[hi - 1])
    &&& forall|m: int| lo <= m < hi - 1 ==> !(#[trigger] s[m] == 44u8 && s[m + 1] == 44u8)
}

/// An amount literal `(digits[,digits]*.dd)`. Gives the value in hundredths, which
/// must fit in a `u128`, and the end of the literal.
pub open spec fn amount_field(s: Seq<u8>, i: int) -> Option<(int, int)> {
    match find_from(s, OPEN, i) {
        None => None,
        Some(k) => {
            let j = run_end(s, k + 1, ByteClass::DigitOrComma);
            if j + 4 <= s.len() && is_grouped(s, k + 1, j) && s[j] == 46u8 && is_digit(s[j + 1])
                && is_digit(s[j + 2]) && s[j + 3] == CLOSE && amount_value(s, k + 1, j)
                <= u128::MAX {
                Some((amount_value(s, k + 1, j), j + 4))
            } else {
                None
            }
        },
    }
}

/// A credit marker: the end of the marker.
pub open spec fn credit_field(s: Seq<u8>, i: int) -> Option<int> {
    match find_from(s, OPEN, i) {
        None => None,
        Some(k) => if has_lit(s, k, credit_marker()) {
            Some(k + 4)
        } else {
            None
        },
    }
}

/// Where an optional field ends: after it where present, else where it would have begun.
pub open spec fn opt_end(r: Option<int>, i: int) -> int {
    match r {
        Some(e) => e,
        None => i,
    }
}

fn month_of(s: &[u8], k: usize) -> (r: u8)
    ensures
        r as int == month_at(s@, k as int),
        r <= 12,
{
    let mut m: u8 = 1;
    while m <= 12
        invariant
            1 <= m <= 13,
            month_at(s@, k as int) == month_from(s@, k as int, m as int),
        decreases 13 - m,
    {
        let name = month_name_bytes(m);
        if lit_at(s, k, name.as_slice()) {
            return m;
        }
        m = m + 1;
    }
    0
}

fn is_digit_byte(b: u8) -> (r: bool)
    ensures
        r == is_digit(b),
{
    48 <= b && b <= 57
}

/// Reads a date literal at or after `i`.
pub fn take_date(s: &[u8], i: usize) -> (r: Option<(u8, u8, usize)>)
    ensures
        match r {
            Some((d, m, e)) => date_field(s@, i as int) == Some((d as int, m as int, e as int)),
            None => date_field(s@, i as int) is None,
        },
{
    match find_byte(s, OPEN, i) {
        None => None,
        Some(k) => {
            proof {
                lemma_find_from(s@, OPEN, i as int);
            }
            if s.len() - k >= 7 && is_digit_byte(s[k + 1]) && is_digit_byte(s[k + 2]) {
                let m = month_of(s, k + 3);
                if m != 0 && s[k + 6] == CLOSE {
                    let d = (s[k + 1] - 48) * 10 + (s[k + 2] - 48);
                    Some((d, m, k + 7))
                } else {
                    None
                }
            } else {
                None
            }
        },
    }
}

/// Reads a payment-method marker at or after `i`.
pub fn take_method(s: &[u8], i: usize) -> (r: Option<usize>)
    ensures
        match r {
            Some(e) => method_field(s@, i as int) == Some(e as int),
            None => method_field(s@, i as int) is None,
        },
{
    match find_byte(s, OPEN, i) {
        None => None,
        Some(k) => {
            proof {
                lemma_find_from(s@, OPEN, i as int);
            }
            let iap = iap_marker_bytes();
            let nfc = nfc_marker_bytes();
            if lit_at(s, k, iap.as_slice()) {
                Some(k + 19)
            } else if lit_at(s, k, nfc.as_slice()) {
                Some(k + 19)
            } else {
                None
            }
        },
    }
}

/// Reads a description literal at or after `i`.
pub fn take_desc(s: &[u8], i: usize) -> (r: Option<(usize, usize, usize)>)
    ensures
        match r {
            Some((a, b, e)) => desc_field(s@, i as int) == Some((a as int, b as int, e as int)),
            None => desc_field(s@, i as int) is None,
        },
{
    match find_byte(s, OPEN, i) {
        None => None,
        Some(k) => {
            proof {
                lemma_find_from(s@, OPEN, i as int);
            }
            match find_byte(s, CLOSE, k + 1) {
                None => None,
                Some(j) => {
                    proof {
                        lemma_find_from(s@, CLOSE, k + 1);
                    }
                    Some((k + 1, j, j + 1))
                },
            }
        },
    }
}

/// Reads a location literal at or after `i`.
pub fn take_location(s: &[u8], i: usize) -> (r: Option<usize>)
    ensures
        match r {
            Some(e) => location_field(s@, i as int) == Some(e as int),
            None => location_field(s@, i as int) is None,
        },
{
    match find_byte(s, OPEN, i) {
        None => None,
        Some(k) => {
            proof {
                lemma_find_from(s@, OPEN, i as int);
            }
            let j = class_run_end(s, k + 1, ByteClass::AlnumOrBlank);
            if j < s.len() && s[j] == CLOSE {
                Some(j + 1)
            } else {
                None
            }
        },
    }
}

/// Whether `s[lo..hi]`, a run of digits and commas, has the shape `digits[,digits]*`.
fn grouped(s: &[u8], lo: usize, hi: usize) -> (r: bool)
    requires
        lo <= hi <= s@.len(),
    ensures
        r == is_grouped(s@, lo as int, hi as int),
{
    if lo == hi || !is_digit_byte(s[lo]) || !is_digit_byte(s[hi - 1]) {
        return false;
    }
    let mut m = lo;
    while m + 1 < hi
        invariant
            lo <= m < hi <= s@.len(),
            forall|q: int| lo <= q < m ==> !(#[trigger] s@[q] == 44u8 && s@[q + 1] == 44u8),
        decreases hi - m,
    {
        if s[m] == 44 && s[m + 1] == 44 {
            return false;
        }
        m = m + 1;
    }
    true
}

/// Reads an amount literal at or after `i`: its value in hundredths and its end.
pub fn take_amount(s: &[u8], i: usize) -> (r: Option<(u128, usize)>)
    ensures
        match r {
            Some((v, e)) => amount_field(s@, i as int) == Some((v as int, e as int)),
            None => amount_field(s@, i as int) is None,
        },
{
    match find_byte(s, OPEN, i) {
        None => None,
        Some(k) => {
            proof {
                lemma_find_from(s@, OPEN, i as int);
            }
            let j = class_run_end(s, k + 1, ByteClass::DigitOrComma);
            proof {
                lemma_run_end(s@, k + 1, ByteClass::DigitOrComma);
            }
            if s.len() - j >= 4 && grouped(s, k + 1, j) && s[j] == 46 && is_digit_byte(s[j + 1])
                && is_digit_byte(s[j + 2]) && s[j + 3] == CLOSE {
                let frac = ((s[j + 1] - 48) * 10 + (s[j + 2] - 48)) as u128;
                match digits_value_u128(s, k + 1, j) {
                    None => None,
                    Some(units) => match units.checked_mul(100) {
                        None => None,
                        Some(h) => match h.checked_add(frac) {
                            None => None,
                            Some(v) => Some((v, j + 4)),
                        },
                    },
                }
            } else {
                None
            }
        },
    }
}

/// Reads a credit marker at or after `i`.
pub fn take_credit(s: &[u8], i: usize) -> (r: Option<usize>)
    ensures
        match r {
            Some(e) => credit_field(s@, i as int) == Some(e as int),
            None => credit_field(s@, i as int) is None,
        },
{
    match find_byte(s, OPEN, i) {
        None => None,
        Some(k) => {
            proof {
                lemma_find_from(s@, OPEN, i as int);
            }
            let cr = credit_marker_bytes();
            if lit_at(s, k, cr.as_slice()) {
                Some(k + 4)
            } else {
                None
            }
        },
    }
}

} // verus!
