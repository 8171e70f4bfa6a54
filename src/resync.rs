//! Why the resynchronizing scan is robust to noise: what it finds from a position
//! on depends only on the bytes from there on, and bytes that open no text
//! literal are passed over without effect.
use vstd::prelude::*;
use crate::amount::digits_value;
use crate::bytes::{ByteClass, find_from, has_lit, run_end};
use crate::fields::{
    amount_field, credit_field, date_field, desc_field, is_grouped, location_field, method_field,
    month_from, opt_end, OPEN,
};
use crate::recognizer::{record_at, scan_records};

verus! {

/// `s` holds no byte that opens a text literal.
pub open spec fn opens_no_literal(s: Seq<u8>) -> bool {
    forall|k: int| 0 <= k < s.len() ==> s[k] != OPEN
}

proof fn lemma_find_shift(p: Seq<u8>, s: Seq<u8>, b: u8, j: int)
    requires
        0 <= j,
    ensures
        match find_from(s, b, j) {
            Some(k) => find_from(p + s, b, p.len() + j) == Some(p.len() + k),
            None => find_from(p + s, b, p.len() + j) is None,
        },
    decreases s.len() - j,
{
    if j < s.len() {
        assert((p + s)[p.len() + j] == s[j]);
        lemma_find_shift(p, s, b, j + 1);
    }
}

proof fn lemma_run_shift(p: Seq<u8>, s: Seq<u8>, j: int, c: ByteClass)
    requires
        0 <= j,
    ensures
        run_end(p + s, p.len() + j, c) == p.len() + run_end(s, j, c),
    decreases s.len() - j,
{
    if j < s.len() {
        assert((p + s)[p.len() + j] == s[j]);
        lemma_run_shift(p, s, j + 1, c);
    }
}

proof fn lemma_lit_shift(p: Seq<u8>, s: Seq<u8>, j: int, lit: Seq<u8>)
    requires
        0 <= j,
    ensures
        has_lit(p + s, p.len() + j, lit) == has_lit(s, j, lit),
{
    if j + lit.len() <= s.len() {
        assert((p + s).subrange(p.len() + j, p.len() + j + lit.len()) =~= s.subrange(
            j,
            j + lit.len(),
        ));
    }
}

proof fn lemma_digits_shift(p: Seq<u8>, s: Seq<u8>, lo: int, hi: int)
    requires
        0 <= lo,
        hi <= s.len(),
    ensures
        digits_value(p + s, p.len() + lo, p.len() + hi) == digits_value(s, lo, hi),
    decreases hi - lo,
{
    if lo < hi {
        assert((p + s)[p.len() + hi - 1] == s[hi - 1]);
        lemma_digits_shift(p, s, lo, hi - 1);
    }
}

proof fn lemma_grouped_shift(p: Seq<u8>, s: Seq<u8>, lo: int, hi: int)
    requires
        0 <= lo,
        hi <= s.len(),
    ensures
        is_grouped(p + s, p.len() + lo, p.len() + hi) == is_grouped(s, lo, hi),
{
    let x = p + s;
    let n = p.len() as int;
    if lo < hi {
        assert(x[n + lo] == s[lo]);
        assert(x[n + hi - 1] == s[hi - 1]);
        assert forall|m: int| lo <= m < hi - 1 implies (#[trigger] s[m] == 44u8 && s[m + 1]
            == 44u8) == (x[n + m] == 44u8 && x[n + m + 1] == 44u8) by {
            assert(x[n + m] == s[m]);
            assert(x[n + m + 1] == s[m + 1]);
        }
        if is_grouped(s, lo, hi) {
            assert forall|m: int| n + lo <= m < n + hi - 1 implies !(#[trigger] x[m] == 44u8 && x[m
                + 1] == 44u8) by {
                assert(s[m - n] == x[m]);
                assert(s[m - n + 1] == x[m + 1]);
            }
        }
        if is_grouped(x, n + lo, n + hi) {
            assert forall|m: int| lo <= m < hi - 1 implies !(#[trigger] s[m] == 44u8 && s[m + 1]
                == 44u8) by {
                assert(x[n + m] == s[m]);
                assert(x[n + m + 1] == s[m + 1]);
            }
        }
    }
}

proof fn lemma_month_shift(p: Seq<u8>, s: Seq<u8>, k: int, m: int)
    requires
        0 <= k,
    ensures
        month_from(p + s, p.len() + k, m) == month_from(s, k, m),
    decreases 13 - m,
{
    if 1 <= m <= 12 {
        lemma_lit_shift(p, s, k, crate::fields::month_name(m));
        lemma_month_shift(p, s, k, m + 1);
    }
}

proof fn lemma_date_shift(p: Seq<u8>, s: Seq<u8>, j: int)
    requires
        0 <= j,
    ensures
        match date_field(s, j) {
            Some((d, m, e)) => date_field(p + s, p.len() + j) == Some((d, m, p.len() + e)),
            None => date_field(p + s, p.len() + j) is None,
        },
{
    let x = p + s;
    let n = p.len() as int;
    lemma_find_shift(p, s, OPEN, j);
    crate::bytes::lemma_find_from(s, OPEN, j);
    if let Some(k) = find_from(s, OPEN, j) {
        lemma_month_shift(p, s, k + 3, 1);
        if k + 7 <= s.len() {
            assert(x[n + k + 1] == s[k + 1]);
            assert(x[n + k + 2] == s[k + 2]);
            assert(x[n + k + 6] == s[k + 6]);
        }
    }
}

proof fn lemma_method_shift(p: Seq<u8>, s: Seq<u8>, j: int)
    requires
        0 <= j,
    ensures
        match method_field(s, j) {
            Some(e) => method_field(p + s, p.len() + j) == Some(p.len() + e),
            None => method_field(p + s, p.len() + j) is None,
        },
{
    lemma_find_shift(p, s, OPEN, j);
    crate::bytes::lemma_find_from(s, OPEN, j);
    if let Some(k) = find_from(s, OPEN, j) {
        lemma_lit_shift(p, s, k, crate::fields::iap_marker());
        lemma_lit_shift(p, s, k, crate::fields::nfc_marker());
    }
}

proof fn lemma_desc_shift(p: Seq<u8>, s: Seq<u8>, j: int)
    requires
        0 <= j,
    ensures
        match desc_field(s, j) {
            Some((a, b, e)) => desc_field(p + s, p.len() + j) == Some(
                (p.len() + a, p.len() + b, p.len() + e),
            ),
            None => desc_field(p + s, p.len() + j) is None,
        },
{
    lemma_find_shift(p, s, OPEN, j);
    crate::bytes::lemma_find_from(s, OPEN, j);
    if let Some(k) = find_from(s, OPEN, j) {
        lemma_find_shift(p, s, crate::fields::CLOSE, k + 1);
    }
}

proof fn lemma_location_shift(p: Seq<u8>, s: Seq<u8>, j: int)
    requires
        0 <= j,
    ensures
        match location_field(s, j) {
            Some(e) => location_field(p + s, p.len() + j) == Some(p.len() + e),
            None => location_field(p + s, p.len() + j) is None,
        },
{
    let x = p + s;
    let n = p.len() as int;
    lemma_find_shift(p, s, OPEN, j);
    crate::bytes::lemma_find_from(s, OPEN, j);
    if let Some(k) = find_from(s, OPEN, j) {
        lemma_run_shift(p, s, k + 1, ByteClass::AlnumOrBlank);
        let r = run_end(s, k + 1, ByteClass::AlnumOrBlank);
        if 0 <= r < s.len() {
            assert(x[n + r] == s[r]);
        }
        crate::bytes::lemma_run_end(s, k + 1, ByteClass::AlnumOrBlank);
    }
}

proof fn lemma_amount_shift(p: Seq<u8>, s: Seq<u8>, j: int)
    requires
        0 <= j,
    ensures
        match amount_field(s, j) {
            Some((v, e)) => amount_field(p + s, p.len() + j) == Some((v, p.len() + e)),
            None => amount_field(p + s, p.len() + j) is None,
        },
{
    let x = p + s;
    let n = p.len() as int;
    lemma_find_shift(p, s, OPEN, j);
    crate::bytes::lemma_find_from(s, OPEN, j);
    if let Some(k) = find_from(s, OPEN, j) {
        lemma_run_shift(p, s, k + 1, ByteClass::DigitOrComma);
        crate::bytes::lemma_run_end(s, k + 1, ByteClass::DigitOrComma);
        let r = run_end(s, k + 1, ByteClass::DigitOrComma);
        if r + 4 <= s.len() {
            assert(x[n + r] == s[r]);
            assert(x[n + r + 1] == s[r + 1]);
            assert(x[n + r + 2] == s[r + 2]);
            assert(x[n + r + 3] == s[r + 3]);
            lemma_digits_shift(p, s, k + 1, r);
            lemma_grouped_shift(p, s, k + 1, r);
        }
    }
}

proof fn lemma_credit_shift(p: Seq<u8>, s: Seq<u8>, j: int)
    requires
        0 <= j,
    ensures
        match credit_field(s, j) {
            Some(e) => credit_field(p + s, p.len() + j) == Some(p.len() + e),
            None => credit_field(p + s, p.len() + j) is None,
        },
{
    lemma_find_shift(p, s, OPEN, j);
    crate::bytes::lemma_find_from(s, OPEN, j);
    if let Some(k) = find_from(s, OPEN, j) {
        lemma_lit_shift(p, s, k, crate::fields::credit_marker());
    }
}

proof fn lemma_ends_forward(s: Seq<u8>, j: int)
    requires
        0 <= j,
    ensures
        date_field(s, j) matches Some((_, _, e)) ==> j < e <= s.len(),
        method_field(s, j) matches Some(e) ==> j < e <= s.len(),
        desc_field(s, j) matches Some((a, b, e)) ==> j < a <= b < e <= s.len(),
        location_field(s, j) matches Some(e) ==> j < e <= s.len(),
        amount_field(s, j) matches Some((_, e)) ==> j < e <= s.len(),
        credit_field(s, j) matches Some(e) ==> j < e <= s.len(),
{
    crate::bytes::lemma_find_from(s, OPEN, j);
    if let Some(k) = find_from(s, OPEN, j) {
        crate::bytes::lemma_find_from(s, crate::fields::CLOSE, k + 1);
        crate::bytes::lemma_run_end(s, k + 1, ByteClass::AlnumOrBlank);
        crate::bytes::lemma_run_end(s, k + 1, ByteClass::DigitOrComma);
    }
}

#[verifier::rlimit(60)]
proof fn lemma_record_shift(p: Seq<u8>, s: Seq<u8>, j: int, year: int)
    requires
        0 <= j,
    ensures
        match record_at(s, j, year) {
            Some((r, e)) => record_at(p + s, p.len() + j, year) == Some((r, p.len() + e)) && j
                < e,
            None => record_at(p + s, p.len() + j, year) is None,
        },
{
    let x = p + s;
    let n = p.len() as int;
    lemma_date_shift(p, s, j);
    lemma_ends_forward(s, j);
    if let Some((_, _, e1)) = date_field(s, j) {
        lemma_date_shift(p, s, e1);
        lemma_ends_forward(s, e1);
        if let Some((day, month, e2)) = date_field(s, e1) {
            lemma_method_shift(p, s, e2);
            lemma_ends_forward(s, e2);
            let e3 = opt_end(method_field(s, e2), e2);
            lemma_desc_shift(p, s, e3);
            lemma_ends_forward(s, e3);
            if let Some((a, b, e4)) = desc_field(s, e3) {
                assert(x.subrange(n + a, n + b) =~= s.subrange(a, b));
                lemma_location_shift(p, s, e4);
                lemma_ends_forward(s, e4);
                let e5 = opt_end(location_field(s, e4), e4);
                lemma_location_shift(p, s, e5);
                lemma_ends_forward(s, e5);
                let e6 = opt_end(location_field(s, e5), e5);
                lemma_amount_shift(p, s, e6);
                lemma_ends_forward(s, e6);
                if let Some((_, e7)) = amount_field(s, e6) {
                    lemma_amount_shift(p, s, e7);
                    lemma_ends_forward(s, e7);
                    let e8 = match amount_field(s, e7) {
                        Some((_, e)) => e,
                        None => e7,
                    };
                    lemma_credit_shift(p, s, e8);
                    lemma_ends_forward(s, e8);
                }
            }
        }
    }
}

/// What the scan finds from a position on depends only on the bytes from there on:
/// whatever stands before them, the same transactions are found in the same order.
pub proof fn lemma_scan_forward_only(p: Seq<u8>, s: Seq<u8>, j: int, year: int)
    requires
        0 <= j,
    ensures
        scan_records(p + s, p.len() + j, year) == scan_records(s, j, year),
    decreases s.len() - j,
{
    if j < s.len() {
        lemma_record_shift(p, s, j, year);
        match record_at(s, j, year) {
            Some((r, e)) => {
                if e <= s.len() {
                    lemma_scan_forward_only(p, s, e, year);
                } else {
                    lemma_scan_forward_only(p, s, j + 1, year);
                }
            },
            None => {
                lemma_scan_forward_only(p, s, j + 1, year);
            },
        }
    }
}

proof fn lemma_noise_prefix_from(noise: Seq<u8>, s: Seq<u8>, i: int, year: int)
    requires
        opens_no_literal(noise),
        0 <= i <= noise.len(),
    ensures
        scan_records(noise + s, i, year) == scan_records(noise + s, noise.len() as int, year),
    decreases noise.len() - i,
{
    let x = noise + s;
    let n = noise.len() as int;
    if i < n {
        lemma_noise_prefix_from(noise, s, i + 1, year);
        lemma_find_skips_noise(noise, s, i);
        lemma_record_shift(noise, s, 0, year);
        assert(date_field(x, i) == date_field(x, n));
        assert(record_at(x, i, year) == record_at(x, n, year));
    }
}

proof fn lemma_find_skips_noise(noise: Seq<u8>, s: Seq<u8>, i: int)
    requires
        opens_no_literal(noise),
        0 <= i <= noise.len(),
    ensures
        find_from(noise + s, OPEN, i) == find_from(noise + s, OPEN, noise.len() as int),
    decreases noise.len() - i,
{
    if i < noise.len() {
        assert((noise + s)[i] == noise[i]);
        lemma_find_skips_noise(noise, s, i + 1);
    }
}

/// Bytes that open no text literal, put before a buffer, are passed over: the
/// scan finds exactly the transactions of the buffer, in the same order.
pub proof fn lemma_noise_skipped(noise: Seq<u8>, s: Seq<u8>, year: int)
    requires
        opens_no_literal(noise),
    ensures
        scan_records(noise + s, 0, year) == scan_records(s, 0, year),
{
    lemma_noise_prefix_from(noise, s, 0, year);
    lemma_scan_forward_only(noise, s, 0, year);
}

/// No transaction is found in bytes that open no text literal.
pub proof fn lemma_noise_yields_nothing(s: Seq<u8>, year: int)
    requires
        opens_no_literal(s),
    ensures
        scan_records(s, 0, year) == Seq::<crate::recognizer::RecordView>::empty(),
{
    lemma_noise_skipped(s, Seq::<u8>::empty(), year);
    assert(s + Seq::<u8>::empty() =~= s);
}

/// Wherever the cursor stands after a record, bytes that open no literal up to
/// the next record are passed over: from there the scan finds exactly the
/// transactions of what follows them.
pub proof fn lemma_noise_between_skipped(before: Seq<u8>, noise: Seq<u8>, rest: Seq<u8>, year: int)
    requires
        opens_no_literal(noise),
    ensures
        scan_records(before + noise + rest, before.len() as int, year) == scan_records(
            rest,
            0,
            year,
        ),
{
    assert(before + noise + rest =~= before + (noise + rest));
    lemma_scan_forward_only(before, noise + rest, 0, year);
    lemma_noise_skipped(noise, rest, year);
}

} // verus!
