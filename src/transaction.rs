//! Transactions and their content-derived identities.
use vstd::prelude::*;
use vstd::utf8::{encode_utf8, encode_utf8_decode_utf8};
use crate::amount::Amount;

verus! {

/// A transaction of a statement.
#[derive(Debug)]
pub struct Transaction {
    /// The identity of the transaction; see [`Transaction::hash`].
    pub id: String,
    /// Midnight UTC of the transaction day, in seconds since the UNIX epoch.
    pub date: i64,
    /// The merchant description.
    pub details: String,
    pub amount: Amount,
    /// The name of the category that the transaction falls in.
    pub category: String,
}

/// The mathematical content of a [`Transaction`].
pub struct TransactionView {
    pub id: Seq<char>,
    pub date: i64,
    pub details: Seq<char>,
    pub hundredths: int,
    pub category: Seq<char>,
}

impl View for Transaction {
    type V = TransactionView;

    open spec fn view(&self) -> TransactionView {
        TransactionView {
            id: self.id@,
            date: self.date,
            details: self.details@,
            hundredths: self.amount.hundredths as int,
            category: self.category@,
        }
    }
}

/// The views of a sequence of transactions.
pub open spec fn views(ts: Seq<Transaction>) -> Seq<TransactionView> {
    ts.map_values(|t: Transaction| t@)
}

/// The last `n` bytes of the big-endian encoding of `u`.
pub open spec fn be_bytes_of(u: int, n: nat) -> Seq<u8>
    decreases n,
{
    if n == 0 {
        seq![]
    } else {
        be_bytes_of(u / 256, (n - 1) as nat).push((u % 256) as u8)
    }
}

/// The eight bytes of `x` in big-endian two's complement, as `i64::to_be_bytes` gives them.
pub open spec fn i64_be_bytes(x: i64) -> Seq<u8> {
    be_bytes_of(if x >= 0 { x as int } else { x + 0x1_0000_0000_0000_0000 }, 8)
}

/// The ASCII decimal digits of `n`, without leading zeros.
pub open spec fn decimal_digits(n: nat) -> Seq<u8>
    decreases n,
{
    if n < 10 {
        seq![(48 + n) as u8]
    } else {
        decimal_digits(n / 10).push((48 + n % 10) as u8)
    }
}

/// The canonical text of an amount of `h` hundredths: units, a point, two digits.
pub open spec fn amount_text(h: nat) -> Seq<u8> {
    decimal_digits(h / 100) + seq![46u8, (48 + (h % 100) / 10) as u8, (48 + h % 10) as u8]
}

/// The bytes from which a transaction's identity is derived.
pub open spec fn identity_bytes(date: i64, details: Seq<char>, hundredths: nat) -> Seq<u8> {
    i64_be_bytes(date) + encode_utf8(details) + amount_text(hundredths)
}

/// The lowercase hexadecimal SHA-256 digest of some bytes.
pub uninterp spec fn sha256_hex_of(data: Seq<u8>) -> Seq<char>;

/// The identity of a transaction with this date, details and amount.
pub open spec fn identity_of(date: i64, details: Seq<char>, hundredths: nat) -> Seq<char> {
    sha256_hex_of(identity_bytes(date, details, hundredths))
}

/// Transactions that agree on date, details and amount have the same identity,
/// whatever else differs between them.
pub proof fn lemma_identity_deterministic(a: TransactionView, b: TransactionView)
    requires
        a.date == b.date,
        a.details == b.details,
        a.hundredths == b.hundredths,
        a.hundredths >= 0,
    ensures
        identity_of(a.date, a.details, a.hundredths as nat) == identity_of(
            b.date,
            b.details,
            b.hundredths as nat,
        ),
{
}

/// Changing exactly one of date, details and amount changes the bytes from which
/// the identity is derived (and so the identity, but for a digest collision).
pub proof fn lemma_identity_input_distinguishes(
    d1: i64,
    s1: Seq<char>,
    h1: nat,
    d2: i64,
    s2: Seq<char>,
    h2: nat,
)
    requires
        (d1 != d2 && s1 == s2 && h1 == h2) || (d1 == d2 && s1 != s2 && h1 == h2) || (d1 == d2
            && s1 == s2 && h1 != h2),
    ensures
        identity_bytes(d1, s1, h1) != identity_bytes(d2, s2, h2),
{
    let b1 = identity_bytes(d1, s1, h1);
    let b2 = identity_bytes(d2, s2, h2);
    lemma_be_bytes_len(i64_unsigned(d1), 8);
    lemma_be_bytes_len(i64_unsigned(d2), 8);
    if b1 == b2 {
        if d1 != d2 {
            assert(b1.subrange(0, 8) =~= i64_be_bytes(d1));
            assert(b2.subrange(0, 8) =~= i64_be_bytes(d2));
            lemma_pow256_eight();
            lemma_be_bytes_injective(i64_unsigned(d1), i64_unsigned(d2), 8);
        } else if s1 != s2 {
            let e1 = encode_utf8(s1);
            let e2 = encode_utf8(s2);
            let t = amount_text(h1);
            assert(e1.len() == e2.len());
            assert(b1.subrange(8, 8 + e1.len() as int) =~= e1);
            assert(b2.subrange(8, 8 + e2.len() as int) =~= e2);
            encode_utf8_decode_utf8(s1);
            encode_utf8_decode_utf8(s2);
        } else {
            let p = i64_be_bytes(d1) + encode_utf8(s1);
            let t1 = amount_text(h1);
            let t2 = amount_text(h2);
            assert(b1.subrange(p.len() as int, b1.len() as int) =~= t1);
            assert(b2.subrange(p.len() as int, b2.len() as int) =~= t2);
            lemma_amount_text_injective(h1, h2);
        }
    }
}

/// The unsigned reading of the two's complement bits of `x`.
pub open spec fn i64_unsigned(x: i64) -> int {
    if x >= 0 {
        x as int
    } else {
        x + 0x1_0000_0000_0000_0000
    }
}

pub open spec fn pow256(n: nat) -> int
    decreases n,
{
    if n == 0 {
        1
    } else {
        256 * pow256((n - 1) as nat)
    }
}

proof fn lemma_pow256_eight()
    ensures
        pow256(8) == 0x1_0000_0000_0000_0000,
{
    assert(pow256(0) == 1);
    assert(pow256(1) == 0x100);
    assert(pow256(2) == 0x1_0000);
    assert(pow256(3) == 0x100_0000);
    assert(pow256(4) == 0x1_0000_0000);
    assert(pow256(5) == 0x100_0000_0000);
    assert(pow256(6) == 0x1_0000_0000_0000);
    assert(pow256(7) == 0x100_0000_0000_0000);
}

proof fn lemma_be_bytes_len(u: int, n: nat)
    ensures
        be_bytes_of(u, n).len() == n,
    decreases n,
{
    if n > 0 {
        lemma_be_bytes_len(u / 256, (n - 1) as nat);
    }
}

proof fn lemma_be_bytes_injective(u: int, v: int, n: nat)
    requires
        0 <= u < pow256(n),
        0 <= v < pow256(n),
        be_bytes_of(u, n) == be_bytes_of(v, n),
    ensures
        u == v,
    decreases n,
{
    if n > 0 {
        let m = (n - 1) as nat;
        lemma_be_bytes_len(u / 256, m);
        lemma_be_bytes_len(v / 256, m);
        assert(be_bytes_of(u, n).drop_last() =~= be_bytes_of(u / 256, m));
        assert(be_bytes_of(v, n).drop_last() =~= be_bytes_of(v / 256, m));
        assert(be_bytes_of(u, n).last() == (u % 256) as u8);
        assert(be_bytes_of(v, n).last() == (v % 256) as u8);
        assert(u / 256 < pow256(m)) by (nonlinear_arith)
            requires
                0 <= u < 256 * pow256(m),
        ;
        assert(v / 256 < pow256(m)) by (nonlinear_arith)
            requires
                0 <= v < 256 * pow256(m),
        ;
        lemma_be_bytes_injective(u / 256, v / 256, m);
    }
}

proof fn lemma_decimal_digits_injective(m: nat, n: nat)
    requires
        decimal_digits(m) == decimal_digits(n),
    ensures
        m == n,
    decreases m,
{
    if m >= 10 && n >= 10 {
        assert(decimal_digits(m).drop_last() =~= decimal_digits(m / 10));
        assert(decimal_digits(n).drop_last() =~= decimal_digits(n / 10));
        assert(decimal_digits(m).last() == decimal_digits(n).last());
        assert(decimal_digits(m).last() == (48 + m % 10) as u8);
        assert(decimal_digits(n).last() == (48 + n % 10) as u8);
        assert(m % 10 == n % 10);
        lemma_decimal_digits_injective(m / 10, n / 10);
        assert(m == n) by (nonlinear_arith)
            requires
                m / 10 == n / 10,
                m % 10 == n % 10,
        ;
    } else if m < 10 && n < 10 {
        assert(decimal_digits(m)[0] == decimal_digits(n)[0]);
        assert(decimal_digits(m)[0] == (48 + m) as u8);
        assert(decimal_digits(n)[0] == (48 + n) as u8);
    } else if m >= 10 {
        lemma_decimal_digits_long(m / 10);
        assert(decimal_digits(m).len() >= 2);
        assert(decimal_digits(n).len() == 1);
    } else if n >= 10 {
        lemma_decimal_digits_long(n / 10);
        assert(decimal_digits(n).len() >= 2);
        assert(decimal_digits(m).len() == 1);
    }
}

proof fn lemma_decimal_digits_long(n: nat)
    ensures
        decimal_digits(n).len() >= 1,
    decreases n,
{
}

proof fn lemma_amount_text_injective(h1: nat, h2: nat)
    requires
        amount_text(h1) == amount_text(h2),
    ensures
        h1 == h2,
{
    let t1 = amount_text(h1);
    let t2 = amount_text(h2);
    let q1 = decimal_digits(h1 / 100);
    let q2 = decimal_digits(h2 / 100);
    assert(t1.len() == q1.len() + 3);
    assert(t2.len() == q2.len() + 3);
    assert(q1.len() == q2.len());
    assert(t1.subrange(0, q1.len() as int) =~= q1);
    assert(t2.subrange(0, q2.len() as int) =~= q2);
    lemma_decimal_digits_injective(h1 / 100, h2 / 100);
    assert(t1[q1.len() as int + 1] == t2[q2.len() as int + 1]);
    assert(t1[q1.len() as int + 2] == t2[q2.len() as int + 2]);
}

/// A lowercase hexadecimal digit.
pub open spec fn is_hex_digit(c: char) -> bool {
    ('0' <= c && c <= '9') || ('a' <= c && c <= 'f')
}

/// Relies on rust-crypto's `sha2::Sha256` with `Digest::input` and
/// `Digest::result_str`: the SHA-256 digest of the data, which depends on the data
/// alone, as 64 lowercase hexadecimal digits (two for each of its 32 bytes).
#[verifier::external_body]
fn sha256_hex(data: &[u8]) -> (r: String)
    ensures
        r@ == sha256_hex_of(data@),
        r@.len() == 64,
        forall|i: int| 0 <= i < r@.len() ==> is_hex_digit(#[trigger] r@[i]),
{
    let mut hasher = crypto::sha2::Sha256::new();
    crypto::digest::Digest::input(&mut hasher, data);
    crypto::digest::Digest::result_str(&mut hasher)
}

fn push_be_bytes(u: u64, n: u32, out: &mut Vec<u8>)
    requires
        n <= 8,
    ensures
        final(out)@ == old(out)@ + be_bytes_of(u as int, n as nat),
    decreases n,
{
    if n > 0 {
        push_be_bytes(u / 256, n - 1, out);
        out.push((u % 256) as u8);
        assert(final(out)@ =~= old(out)@ + be_bytes_of(u as int, n as nat));
    }
}

fn push_decimal_digits(n: u128, out: &mut Vec<u8>)
    ensures
        final(out)@ == old(out)@ + decimal_digits(n as nat),
    decreases n,
{
    if n >= 10 {
        push_decimal_digits(n / 10, out);
    }
    out.push((48 + n % 10) as u8);
    assert(final(out)@ =~= old(out)@ + decimal_digits(n as nat));
}

fn push_all(src: &[u8], out: &mut Vec<u8>)
    ensures
        final(out)@ == old(out)@ + src@,
{
    let mut i: usize = 0;
    while i < src.len()
        invariant
            i <= src@.len(),
            out@ == old(out)@ + src@.subrange(0, i as int),
        decreases src.len() - i,
    {
        out.push(src[i]);
        i = i + 1;
        assert(out@ =~= old(out)@ + src@.subrange(0, i as int));
    }
    assert(src@.subrange(0, i as int) =~= src@);
}

/// The bytes from which the identity of a transaction with this date, details and
/// amount is derived.
pub fn identity_input(date: i64, details: &str, amount: Amount) -> (r: Vec<u8>)
    ensures
        r@ == identity_bytes(date, details@, amount.hundredths as nat),
{
    let mut out: Vec<u8> = Vec::new();
    let u: u64 = if date >= 0 {
        date as u64
    } else {
        u64::MAX - ((-(date + 1)) as u64)
    };
    push_be_bytes(u, 8, &mut out);
    assert(out@ =~= i64_be_bytes(date));
    push_all(details.as_bytes(), &mut out);
    push_decimal_digits(amount.hundredths / 100, &mut out);
    out.push(46);
    out.push((48 + (amount.hundredths % 100) / 10) as u8);
    out.push((48 + amount.hundredths % 10) as u8);
    assert(out@ =~= identity_bytes(date, details@, amount.hundredths as nat));
    out
}

/// The identity of a transaction with this date, details and amount.
pub fn identity_of_parts(date: i64, details: &str, amount: Amount) -> (r: String)
    ensures
        r@ == identity_of(date, details@, amount.hundredths as nat),
        r@.len() == 64,
        forall|i: int| 0 <= i < r@.len() ==> is_hex_digit(#[trigger] r@[i]),
{
    let input = identity_input(date, details, amount);
    sha256_hex(input.as_slice())
}

impl Transaction {
    /// The identity of this transaction: the SHA-256 digest, in hexadecimal, of its
    /// date, details and amount.
    pub fn hash(&self) -> (r: String)
        ensures
            r@ == identity_of(self.date, self.details@, self.amount.hundredths as nat),
            r@.len() == 64,
            forall|i: int| 0 <= i < r@.len() ==> is_hex_digit(#[trigger] r@[i]),
    {
        identity_of_parts(self.date, self.details.as_str(), self.amount)
    }
}

} // verus!
