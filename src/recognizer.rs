//! The resynchronizing scanner that finds transaction and summary records in a
//! decompressed content stream.
//!
//! At each cursor position the scanner tries to read a whole record. Where one is
//! read, the cursor moves past it; where none is, the cursor moves on by one byte.
use vstd::prelude::*;
use crate::amount::Amount;
use crate::bytes::{copy_range, find_byte, find_from, has_lit, lemma_find_from, lit_at};
use crate::date::{chrono_midnight, is_calendar_day, midnight_stamp};
use crate::fields::{
    amount_field, credit_field, credits_label, credits_label_bytes, date_field, debits_label,
    debits_label_bytes, desc_field, location_field, method_field, opt_end, take_amount,
    take_credit, take_date, take_desc, take_location, take_method, OPEN,
};

verus! {

/// A transaction as read from a content stream.
pub struct Recognized {
    /// Midnight UTC of the transaction day, in seconds since the UNIX epoch.
    pub date: i64,
    /// The merchant description, cut at its first double space.
    pub details: Vec<u8>,
    pub amount: Amount,
    pub is_credit: bool,
}

/// The mathematical content of a [`Recognized`] transaction.
pub struct RecordView {
    pub date: i64,
    pub details: Seq<u8>,
    pub hundredths: int,
    pub is_credit: bool,
}

impl View for Recognized {
    type V = RecordView;

    open spec fn view(&self) -> RecordView {
        RecordView {
            date: self.date,
            details: self.details@,
            hundredths: self.amount.hundredths as int,
            is_credit: self.is_credit,
        }
    }
}

/// The first position at or after `k` where two spaces follow each other; `d.len()` if none.
pub open spec fn double_space_from(d: Seq<u8>, k: int) -> int
    decreases d.len() - k,
{
    if k < 0 || k + 1 >= d.len() {
        d.len() as int
    } else if d[k] == 32u8 && d[k + 1] == 32u8 {
        k
    } else {
        double_space_from(d, k + 1)
    }
}

/// A description without the padding and location that follow its first double space.
pub open spec fn clean_details(d: Seq<u8>) -> Seq<u8> {
    d.subrange(0, double_space_from(d, 0))
}

/// The transaction record that starts at cursor `i`, in a statement of `year`, and its end.
///
/// A record is: a processing date, a transaction date, an optional payment-method
/// marker, a description, up to two location literals, one or two amounts (the
/// last is in the local currency) and an optional credit marker.
pub open spec fn record_at(s: Seq<u8>, i: int, year: int) -> Option<(RecordView, int)> {
    match date_field(s, i) {
        None => None,
        Some((_, _, e1)) => match date_field(s, e1) {
            None => None,
            Some((day, month, e2)) => if !is_calendar_day(year, month, day) {
                None
            } else {
                let e3 = opt_end(method_field(s, e2), e2);
                match desc_field(s, e3) {
                    None => None,
                    Some((a, b, e4)) => {
                        let e5 = opt_end(location_field(s, e4), e4);
                        let e6 = opt_end(location_field(s, e5), e5);
                        match amount_field(s, e6) {
                            None => None,
                            Some((v1, e7)) => {
                                let v = match amount_field(s, e7) {
                                    Some((v2, _)) => v2,
                                    None => v1,
                                };
                                let e8 = match amount_field(s, e7) {
                                    Some((_, e)) => e,
                                    None => e7,
                                };
                                let credit = credit_field(s, e8);
                                Some(
                                    (
                                        RecordView {
                                            date: midnight_stamp(year, month, day) as i64,
                                            details: clean_details(s.subrange(a, b)),
                                            hundredths: v,
                                            is_credit: credit is Some,
                                        },
                                        opt_end(credit, e8),
                                    ),
                                )
                            },
                        }
                    },
                }
            },
        },
    }
}

/// The transactions found by scanning `s` from cursor `i`, in order.
pub open spec fn scan_records(s: Seq<u8>, i: int, year: int) -> Seq<RecordView>
    decreases s.len() - i,
{
    if i < 0 || i >= s.len() {
        seq![]
    } else {
        match record_at(s, i, year) {
            Some((r, e)) => if i < e <= s.len() {
                seq![r] + scan_records(s, e, year)
            } else {
                scan_records(s, i + 1, year)
            },
            None => scan_records(s, i + 1, year),
        }
    }
}

/// The summary record that starts at cursor `i`: credits and debits totals, in
/// hundredths, and its end.
pub open spec fn summary_at(s: Seq<u8>, i: int) -> Option<(int, int, int)> {
    match find_from(s, OPEN, i) {
        None => None,
        Some(k) => if !has_lit(s, k, credits_label()) {
            None
        } else {
            match amount_field(s, k + credits_label().len()) {
                None => None,
                Some((c, e1)) => match find_from(s, OPEN, e1) {
                    None => None,
                    Some(k2) => if !has_lit(s, k2, debits_label()) {
                        None
                    } else {
                        match amount_field(s, k2 + debits_label().len()) {
                            None => None,
                            Some((d, e2)) => Some((c, d, e2)),
                        }
                    },
                },
            }
        },
    }
}

/// The later of two findings: `later` where there is one, else `earlier`.
pub open spec fn later_or<T>(later: Option<T>, earlier: Option<T>) -> Option<T> {
    match later {
        Some(x) => Some(x),
        None => earlier,
    }
}

/// The totals of the last summary record found by scanning `s` from cursor `i`.
pub open spec fn last_summary(s: Seq<u8>, i: int) -> Option<(int, int)>
    decreases s.len() - i,
{
    if i < 0 || i >= s.len() {
        None
    } else {
        match summary_at(s, i) {
            Some((c, d, e)) => if i < e <= s.len() {
                later_or(last_summary(s, e), Some((c, d)))
            } else {
                last_summary(s, i + 1)
            },
            None => last_summary(s, i + 1),
        }
    }
}

/// The position of the first double space in `s[a..b]`, or `b`.
fn cut_at_double_space(s: &[u8], a: usize, b: usize) -> (r: usize)
    requires
        a <= b <= s@.len(),
    ensures
        r as int == a + double_space_from(s@.subrange(a as int, b as int), 0),
        a <= r <= b,
{
    let ghost d = s@.subrange(a as int, b as int);
    let mut k = a;
    while b - k > 1
        invariant
            a <= k <= b,
            b <= s@.len(),
            d == s@.subrange(a as int, b as int),
            double_space_from(d, 0) == double_space_from(d, k - a),
        decreases b - k,
    {
        if s[k] == 32 && s[k + 1] == 32 {
            return k;
        }
        k = k + 1;
    }
    if k < b {
        assert(double_space_from(d, k - a) == d.len());
    }
    b
}

/// Reads the transaction record that starts at cursor `i`, in a statement of `year`.
pub fn read_record(s: &[u8], i: usize, year: i32) -> (r: Option<(Recognized, usize)>)
    ensures
        match r {
            Some((rec, e)) => record_at(s@, i as int, year as int) == Some((rec@, e as int)),
            None => record_at(s@, i as int, year as int) is None,
        },
{
    let e1 = match take_date(s, i) {
        None => return None,
        Some((_, _, e)) => e,
    };
    let (day, month, e2) = match take_date(s, e1) {
        None => return None,
        Some(f) => f,
    };
    let date = match chrono_midnight(year, month as u32, day as u32) {
        None => return None,
        Some(t) => t,
    };
    let e3 = match take_method(s, e2) {
        Some(e) => e,
        None => e2,
    };
    let (a, b, e4) = match take_desc(s, e3) {
        None => return None,
        Some(f) => f,
    };
    let e5 = match take_location(s, e4) {
        Some(e) => e,
        None => e4,
    };
    let e6 = match take_location(s, e5) {
        Some(e) => e,
        None => e5,
    };
    let (v1, e7) = match take_amount(s, e6) {
        None => return None,
        Some(f) => f,
    };
    let (v, e8) = match take_amount(s, e7) {
        Some(f) => f,
        None => (v1, e7),
    };
    let (is_credit, e9) = match take_credit(s, e8) {
        Some(e) => (true, e),
        None => (false, e8),
    };
    proof {
        lemma_find_from(s@, OPEN, e3 as int);
        lemma_find_from(s@, 41u8, a as int);
    }
    let cut = cut_at_double_space(s, a, b);
    let details = copy_range(s, a, cut);
    assert(details@ =~= clean_details(s@.subrange(a as int, b as int)));
    let rec = Recognized { date, details, amount: Amount { hundredths: v }, is_credit };
    Some((rec, e9))
}

/// Reads the summary record that starts at cursor `i`: credits and debits totals and its end.
pub fn read_summary(s: &[u8], i: usize) -> (r: Option<(u128, u128, usize)>)
    ensures
        match r {
            Some((c, d, e)) => summary_at(s@, i as int) == Some((c as int, d as int, e as int)),
            None => summary_at(s@, i as int) is None,
        },
{
    let k = match find_byte(s, OPEN, i) {
        None => return None,
        Some(k) => k,
    };
    proof {
        lemma_find_from(s@, OPEN, i as int);
    }
    let credits = credits_label_bytes();
    if !lit_at(s, k, credits.as_slice()) {
        return None;
    }
    let (c, e1) = match take_amount(s, k + 19) {
        None => return None,
        Some(f) => f,
    };
    let k2 = match find_byte(s, OPEN, e1) {
        None => return None,
        Some(k2) => k2,
    };
    proof {
        lemma_find_from(s@, OPEN, e1 as int);
    }
    let debits = debits_label_bytes();
    if !lit_at(s, k2, debits.as_slice()) {
        return None;
    }
    match take_amount(s, k2 + 21) {
        None => None,
        Some((d, e2)) => Some((c, d, e2)),
    }
}

/// The transactions in a content stream, in the order in which they stand there.
pub fn scan_transactions(s: &[u8], year: i32) -> (r: Vec<Recognized>)
    ensures
        r@.map_values(|x: Recognized| x@) == scan_records(s@, 0, year as int),
{
    let mut out: Vec<Recognized> = Vec::new();
    let mut i: usize = 0;
    while i < s.len()
        invariant
            i <= s@.len(),
            scan_records(s@, 0, year as int) == out@.map_values(|x: Recognized| x@) + scan_records(
                s@,
                i as int,
                year as int,
            ),
        decreases s.len() - i,
    {
        match read_record(s, i, year) {
            Some((rec, e)) => {
                if i < e && e <= s.len() {
                    let ghost before = out@.map_values(|x: Recognized| x@);
                    let ghost v = rec@;
                    out.push(rec);
                    assert(out@.map_values(|x: Recognized| x@) =~= before.push(v));
                    assert(seq![v] + scan_records(s@, e as int, year as int) =~= scan_records(
                        s@,
                        i as int,
                        year as int,
                    ));
                    assert(before.push(v) + scan_records(s@, e as int, year as int) =~= before + (
                    seq![v] + scan_records(s@, e as int, year as int)));
                    i = e;
                } else {
                    i = i + 1;
                }
            },
            None => {
                i = i + 1;
            },
        }
    }
    assert(out@.map_values(|x: Recognized| x@) + scan_records(s@, i as int, year as int)
        =~= out@.map_values(|x: Recognized| x@));
    out
}

/// The credits and debits totals of the last summary record in a content stream.
pub fn scan_summary(s: &[u8]) -> (r: Option<(Amount, Amount)>)
    ensures
        match r {
            Some((c, d)) => last_summary(s@, 0) == Some(
                (c.hundredths as int, d.hundredths as int),
            ),
            None => last_summary(s@, 0) is None,
        },
{
    let mut found: Option<(Amount, Amount)> = None;
    let mut i: usize = 0;
    while i < s.len()
        invariant
            i <= s@.len(),
            last_summary(s@, 0) == later_or(
                last_summary(s@, i as int),
                match found {
                    Some((c, d)) => Some((c.hundredths as int, d.hundredths as int)),
                    None => None,
                },
            ),
        decreases s.len() - i,
    {
        match read_summary(s, i) {
            Some((c, d, e)) => {
                if i < e && e <= s.len() {
                    found = Some((Amount { hundredths: c }, Amount { hundredths: d }));
                    i = e;
                } else {
                    i = i + 1;
                }
            },
            None => {
                i = i + 1;
            },
        }
    }
    found
}

} // verus!
