//! Raw streams in a document and their decompression.
use vstd::prelude::*;
use crate::amount::{digits_value, digits_value_u128};
use crate::bytes::{
    ByteClass, class_run_end, copy_range, find_byte, find_from, has_lit, lemma_find_from, lemma_run_end,
    lit_at, run_end,
};

verus! {

/// The line terminator that ends a length declaration.
pub const NEWLINE: u8 = 10;

/// The bytes of the marker that introduces a stream length declaration, `Length `.
pub open spec fn length_marker() -> Seq<u8> {
    seq![76u8, 101u8, 110u8, 103u8, 116u8, 104u8, 32u8]
}

fn length_marker_bytes() -> (r: [u8; 7])
    ensures
        r@ == length_marker(),
{
    let r: [u8; 7] = [76, 101, 110, 103, 116, 104, 32];
    assert(r@ =~= length_marker());
    r
}

/// The bytes of the marker that introduces a stream body, `stream\n`.
pub open spec fn body_marker() -> Seq<u8> {
    seq![115u8, 116u8, 114u8, 101u8, 97u8, 109u8, 10u8]
}

fn body_marker_bytes() -> (r: [u8; 7])
    ensures
        r@ == body_marker(),
{
    let r: [u8; 7] = [115, 116, 114, 101, 97, 109, 10];
    assert(r@ =~= body_marker());
    r
}

/// Why stream extraction stopped before the end of a document.
#[derive(Clone, Copy, Debug, PartialEq, Eq, Structural)]
pub enum StructuralError {
    /// A length declaration is not followed by a decimal integer and a line end.
    InvalidLength,
    /// No stream body follows a length declaration.
    MissingStreamBody,
}

/// An embedded byte payload of a document.
#[derive(Debug)]
pub struct PDFStream {
    pub bytes: Vec<u8>,
}

/// The first position at or after `i` where `lit` starts.
pub open spec fn find_lit_from(s: Seq<u8>, lit: Seq<u8>, i: int) -> Option<int>
    decreases s.len() - i,
{
    if i < 0 || i >= s.len() {
        None
    } else if has_lit(s, i, lit) {
        Some(i)
    } else {
        find_lit_from(s, lit, i + 1)
    }
}

/// What the next stream declaration at or after `i` gives.
pub enum StreamStep {
    /// No further length declaration, or too few bytes left for the declared length.
    End,
    /// A stream of `len` bytes starting at `start`.
    Stream(int, int),
    Failed(StructuralError),
}

pub open spec fn stream_step(s: Seq<u8>, i: int) -> StreamStep {
    match find_lit_from(s, length_marker(), i) {
        None => StreamStep::End,
        Some(k) => {
            let p = k + length_marker().len();
            match find_from(s, NEWLINE, p) {
                None => StreamStep::Failed(StructuralError::InvalidLength),
                Some(nl) => if nl == p || run_end(s, p, ByteClass::Digit) != nl || digits_value(
                    s,
                    p,
                    nl,
                ) > usize::MAX {
                    StreamStep::Failed(StructuralError::InvalidLength)
                } else {
                    match find_lit_from(s, body_marker(), nl) {
                        None => StreamStep::Failed(StructuralError::MissingStreamBody),
                        Some(m) => {
                            let start = m + body_marker().len();
                            let n = digits_value(s, p, nl) as int;
                            if start + n <= s.len() {
                                StreamStep::Stream(start, n)
                            } else {
                                StreamStep::End
                            }
                        },
                    }
                },
            }
        },
    }
}

/// The streams of `s` from cursor `i` on, in document order, and the structural
/// error that stopped extraction, if any.
pub open spec fn streams_from(s: Seq<u8>, i: int) -> (Seq<Seq<u8>>, Option<StructuralError>)
    decreases s.len() - i,
{
    match stream_step(s, i) {
        StreamStep::End => (seq![], None),
        StreamStep::Failed(e) => (seq![], Some(e)),
        StreamStep::Stream(start, n) => if i < start + n <= s.len() && 0 <= i {
            let rest = streams_from(s, start + n);
            (seq![s.subrange(start, start + n)] + rest.0, rest.1)
        } else {
            (seq![], None)
        },
    }
}

/// The streams of a whole document, and the error that stopped extraction, if any.
pub open spec fn document_streams(doc: Seq<u8>) -> (Seq<Seq<u8>>, Option<StructuralError>) {
    streams_from(doc, 0)
}

fn find_lit(s: &[u8], lit: &[u8], start: usize) -> (r: Option<usize>)
    ensures
        match r {
            Some(k) => find_lit_from(s@, lit@, start as int) == Some(k as int),
            None => find_lit_from(s@, lit@, start as int) is None,
        },
        r matches Some(k) ==> k + lit@.len() <= s@.len(),
        s@.len() <= usize::MAX,
{
    let n = s.len();
    let mut i = start;
    while i < s.len()
        invariant
            start <= i,
            n == s@.len(),
            find_lit_from(s@, lit@, start as int) == find_lit_from(s@, lit@, i as int),
        decreases s.len() - i,
    {
        if lit_at(s, i, lit) {
            return Some(i);
        }
        i = i + 1;
    }
    None
}

/// Reads the next stream declaration at or after `i`: the bounds of its payload.
fn next_stream(s: &[u8], i: usize) -> (r: Result<Option<(usize, usize)>, StructuralError>)
    ensures
        match r {
            Ok(Some((a, n))) => stream_step(s@, i as int) == StreamStep::Stream(a as int, n as int),
            Ok(None) => stream_step(s@, i as int) == StreamStep::End,
            Err(e) => stream_step(s@, i as int) == StreamStep::Failed(e),
        },
{
    let length = length_marker_bytes();
    let k = match find_lit(s, length.as_slice(), i) {
        None => return Ok(None),
        Some(k) => k,
    };
    let p = k + 7;
    let nl = match find_byte(s, NEWLINE, p) {
        None => return Err(StructuralError::InvalidLength),
        Some(nl) => nl,
    };
    proof {
        lemma_find_from(s@, NEWLINE, p as int);
        lemma_run_end(s@, p as int, ByteClass::Digit);
    }
    if nl == p || class_run_end(s, p, ByteClass::Digit) != nl {
        return Err(StructuralError::InvalidLength);
    }
    let n = match digits_value_u128(s, p, nl) {
        None => return Err(StructuralError::InvalidLength),
        Some(v) => {
            if v > usize::MAX as u128 {
                return Err(StructuralError::InvalidLength);
            }
            v as usize
        },
    };
    let body = body_marker_bytes();
    let m = match find_lit(s, body.as_slice(), nl) {
        None => return Err(StructuralError::MissingStreamBody),
        Some(m) => m,
    };
    if m + 7 <= s.len() && n <= s.len() - (m + 7) {
        Ok(Some((m + 7, n)))
    } else {
        Ok(None)
    }
}

/// The streams of a document, in document order, and the error that stopped
/// extraction, if any.
pub struct Extraction {
    pub streams: Vec<PDFStream>,
    pub error: Option<StructuralError>,
}

/// Finds the length-prefixed streams of a document. Extraction stops at the first
/// structural error; the streams before it are kept.
pub fn extract_streams(doc: &[u8]) -> (r: Extraction)
    ensures
        r.streams@.map_values(|x: PDFStream| x.bytes@) == document_streams(doc@).0,
        r.error == document_streams(doc@).1,
{
    let len = doc.len();
    let mut out: Vec<PDFStream> = Vec::new();
    let mut i: usize = 0;
    loop
        invariant
            len == doc@.len(),
            i <= doc@.len(),
            document_streams(doc@).0 == out@.map_values(|x: PDFStream| x.bytes@) + streams_from(
                doc@,
                i as int,
            ).0,
            document_streams(doc@).1 == streams_from(doc@, i as int).1,
        decreases doc@.len() - i,
    {
        match next_stream(doc, i) {
            Err(e) => {
                assert(out@.map_values(|x: PDFStream| x.bytes@) + streams_from(doc@, i as int).0
                    =~= out@.map_values(|x: PDFStream| x.bytes@));
                return Extraction { streams: out, error: Some(e) };
            },
            Ok(None) => {
                assert(out@.map_values(|x: PDFStream| x.bytes@) + streams_from(doc@, i as int).0
                    =~= out@.map_values(|x: PDFStream| x.bytes@));
                return Extraction { streams: out, error: None };
            },
            Ok(Some((a, n))) => {
                if i < a + n {
                    let ghost before = out@.map_values(|x: PDFStream| x.bytes@);
                    let bytes = copy_range(doc, a, a + n);
                    let ghost v = bytes@;
                    out.push(PDFStream { bytes });
                    assert(out@.map_values(|x: PDFStream| x.bytes@) =~= before.push(v));
                    assert(before.push(v) + streams_from(doc@, (a + n) as int).0 =~= before + (
                    seq![v] + streams_from(doc@, (a + n) as int).0));
                    i = a + n;
                } else {
                    assert(out@.map_values(|x: PDFStream| x.bytes@) + streams_from(
                        doc@,
                        i as int,
                    ).0 =~= out@.map_values(|x: PDFStream| x.bytes@));
                    return Extraction { streams: out, error: None };
                }
            },
        }
    }
}

/// What inflating raw DEFLATE data gives: the inflated bytes, or `None` where the
/// data is not a valid DEFLATE stream.
pub uninterp spec fn inflate_of(data: Seq<u8>) -> Option<Seq<u8>>;

/// Relies on flate2's `read::DeflateDecoder`, read to the end: it inflates raw
/// DEFLATE data, and what it gives, or whether it fails, depends on the data alone.
#[verifier::external_body]
fn inflate(data: &[u8]) -> (r: Option<Vec<u8>>)
    ensures
        match r {
            Some(v) => inflate_of(data@) == Some(v@),
            None => inflate_of(data@) is None,
        },
{
    let mut out = Vec::new();
    match std::io::Read::read_to_end(&mut flate2::read::DeflateDecoder::new(data), &mut out) {
        Ok(_) => Some(out),
        Err(_) => None,
    }
}

/// A stream's content: its payload inflated after a two-byte framing header, or,
/// where that fails, the payload as it stands.
pub open spec fn decompressed(bytes: Seq<u8>) -> Seq<u8> {
    if bytes.len() >= 2 {
        match inflate_of(bytes.subrange(2, bytes.len() as int)) {
            Some(v) => v,
            None => bytes,
        }
    } else {
        bytes
    }
}

impl PDFStream {
    /// The content of this stream, inflated where it is compressed.
    pub fn decompress(&self) -> (r: Vec<u8>)
        ensures
            r@ == decompressed(self.bytes@),
    {
        let n = self.bytes.len();
        if n >= 2 {
            let (_, body) = self.bytes.as_slice().split_at(2);
            match inflate(body) {
                Some(v) => {
                    return v;
                },
                None => {},
            }
        }
        copy_range(self.bytes.as_slice(), 0, n)
    }
}

} // verus!
