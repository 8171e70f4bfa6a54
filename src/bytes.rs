//! Byte-level building blocks for scanning text-drawing instructions.
use vstd::prelude::*;

verus! {

/// The classes of bytes that a field may be made of.
#[derive(Clone, Copy, Debug, PartialEq, Eq, Structural)]
pub enum ByteClass {
    /// ASCII decimal digits.
    Digit,
    /// ASCII decimal digits and the thousands separator `,`.
    DigitOrComma,
    /// ASCII letters and digits, space and tab.
    AlnumOrBlank,
}

pub open spec fn is_digit(b: u8) -> bool {
    48u8 <= b <= 57u8
}

pub open spec fn in_class(c: ByteClass, b: u8) -> bool {
    match c {
        ByteClass::Digit => is_digit(b),
        ByteClass::DigitOrComma => is_digit(b) || b == 44u8,
        ByteClass::AlnumOrBlank => is_digit(b) || (65u8 <= b <= 90u8) || (97u8 <= b <= 122u8)
            || b == 32u8 || b == 9u8,
    }
}

/// The first position at or after `i` that holds `b`, if any.
pub open spec fn find_from(s: Seq<u8>, b: u8, i: int) -> Option<int>
    decreases s.len() - i,
{
    if i < 0 || i >= s.len() {
        None
    } else if s[i] == b {
        Some(i)
    } else {
        find_from(s, b, i + 1)
    }
}

/// The end of the longest run of bytes of class `c` that starts at `i`.
pub open spec fn run_end(s: Seq<u8>, i: int, c: ByteClass) -> int
    decreases s.len() - i,
{
    if 0 <= i < s.len() && in_class(c, s[i]) {
        run_end(s, i + 1, c)
    } else {
        i
    }
}

/// `s` holds `lit` starting at position `i`.
pub open spec fn has_lit(s: Seq<u8>, i: int, lit: Seq<u8>) -> bool {
    0 <= i && i + lit.len() <= s.len() && s.subrange(i, i + lit.len()) == lit
}

pub proof fn lemma_find_from(s: Seq<u8>, b: u8, i: int)
    ensures
        find_from(s, b, i) matches Some(k) ==> i <= k < s.len() && s[k] == b,
    decreases s.len() - i,
{
    if 0 <= i < s.len() && s[i] != b {
        lemma_find_from(s, b, i + 1);
    }
}

pub proof fn lemma_run_end(s: Seq<u8>, i: int, c: ByteClass)
    requires
        0 <= i <= s.len(),
    ensures
        i <= run_end(s, i, c) <= s.len(),
        forall|j: int| i <= j < run_end(s, i, c) ==> in_class(c, #[trigger] s[j]),
        run_end(s, i, c) < s.len() ==> !in_class(c, s[run_end(s, i, c)]),
    decreases s.len() - i,
{
    if i < s.len() && in_class(c, s[i]) {
        lemma_run_end(s, i + 1, c);
    }
}

/// The position of the first `b` in `s` at or after `start`.
pub fn find_byte(s: &[u8], b: u8, start: usize) -> (r: Option<usize>)
    ensures
        match r {
            Some(k) => find_from(s@, b, start as int) == Some(k as int),
            None => find_from(s@, b, start as int) is None,
        },
        s@.len() <= usize::MAX,
{
    proof {
        lemma_find_from(s@, b, start as int);
    }
    let n = s.len();
    let mut i = start;
    while i < s.len()
        invariant
            start <= i,
            n == s@.len(),
            find_from(s@, b, start as int) == find_from(s@, b, i as int),
        decreases s.len() - i,
    {
        if s[i] == b {
            return Some(i);
        }
        i = i + 1;
    }
    None
}

/// The end of the longest run of bytes of class `c` in `s` from `start`.
pub fn class_run_end(s: &[u8], start: usize, c: ByteClass) -> (r: usize)
    requires
        start <= s@.len(),
    ensures
        r as int == run_end(s@, start as int, c),
{
    let mut i = start;
    while i < s.len() && byte_in_class(c, s[i])
        invariant
            start <= i <= s@.len(),
            run_end(s@, start as int, c) == run_end(s@, i as int, c),
        decreases s.len() - i,
    {
        i = i + 1;
    }
    i
}

pub fn byte_in_class(c: ByteClass, b: u8) -> (r: bool)
    ensures
        r == in_class(c, b),
{
    match c {
        ByteClass::Digit => 48u8 <= b && b <= 57u8,
        ByteClass::DigitOrComma => (48u8 <= b && b <= 57u8) || b == 44u8,
        ByteClass::AlnumOrBlank => (48u8 <= b && b <= 57u8) || (65u8 <= b && b <= 90u8) || (97u8
            <= b && b <= 122u8) || b == 32u8 || b == 9u8,
    }
}

/// Whether `s` holds `lit` starting at position `i`.
pub fn lit_at(s: &[u8], i: usize, lit: &[u8]) -> (r: bool)
    ensures
        r == has_lit(s@, i as int, lit@),
{
    if i > s.len() || lit.len() > s.len() - i {
        return false;
    }
    let n = s.len();
    let mut j: usize = 0;
    while j < lit.len()
        invariant
            n == s@.len(),
            i + lit@.len() <= s@.len(),
            j <= lit@.len(),
            forall|k: int| 0 <= k < j ==> s@[i + k] == lit@[k],
        decreases lit.len() - j,
    {
        if s[i + j] != lit[j] {
            assert(s@.subrange(i as int, i + lit@.len())[j as int] != lit@[j as int]);
            return false;
        }
        j = j + 1;
    }
    assert(s@.subrange(i as int, i + lit@.len()) =~= lit@);
    true
}

/// A copy of `s[a..b]`.
pub fn copy_range(s: &[u8], a: usize, b: usize) -> (r: Vec<u8>)
    requires
        a <= b <= s@.len(),
    ensures
        r@ == s@.subrange(a as int, b as int),
{
    let mut out: Vec<u8> = Vec::new();
    let mut k = a;
    while k < b
        invariant
            a <= k <= b <= s@.len(),
            out@ == s@.subrange(a as int, k as int),
        decreases b - k,
    {
        out.push(s[k]);
        k = k + 1;
        assert(out@ =~= s@.subrange(a as int, k as int));
    }
    out
}

} // verus!
