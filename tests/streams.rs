use libhsbc::stream::{extract_streams, PDFStream, StructuralError};
use std::io::Write;

fn deflate(data: &[u8]) -> Vec<u8> {
    let mut enc = flate2::write::DeflateEncoder::new(Vec::new(), flate2::Compression::default());
    enc.write_all(data).unwrap();
    enc.finish().unwrap()
}

#[test]
fn declared_length_is_taken_exactly() {
    let doc = b"%PDF-1.3\n1 0 obj\n<</Length 10\n>>\nstream\n0123456789\nendstream\nendobj\ntrailer\n";
    let ex = extract_streams(doc);
    assert_eq!(ex.error, None);
    assert_eq!(ex.streams.len(), 1);
    assert_eq!(ex.streams[0].bytes, b"0123456789".to_vec());
}

#[test]
fn streams_come_in_document_order() {
    let doc = b"/Length 3\nstream\nabc\nendstream /Length 2\nxx stream\nde\nendstream";
    let ex = extract_streams(doc);
    assert_eq!(ex.error, None);
    assert_eq!(ex.streams.len(), 2);
    assert_eq!(ex.streams[0].bytes, b"abc".to_vec());
    assert_eq!(ex.streams[1].bytes, b"de".to_vec());
}

#[test]
fn document_without_streams_is_empty() {
    let ex = extract_streams(b"%PDF-1.3 nothing here");
    assert_eq!(ex.error, None);
    assert!(ex.streams.is_empty());
}

#[test]
fn unparsable_length_is_structural_error() {
    let ex = extract_streams(b"/Length 3\nstream\nabc /Length 1 0 R\nstream\nx");
    assert_eq!(ex.streams.len(), 1);
    assert_eq!(ex.error, Some(StructuralError::InvalidLength));
    let ex = extract_streams(b"/Length 12");
    assert_eq!(ex.error, Some(StructuralError::InvalidLength));
}

#[test]
fn missing_body_is_structural_error() {
    let ex = extract_streams(b"/Length 3\nstream\nabc /Length 4\nno body");
    assert_eq!(ex.streams.len(), 1);
    assert_eq!(ex.error, Some(StructuralError::MissingStreamBody));
}

#[test]
fn truncated_stream_ends_extraction() {
    let ex = extract_streams(b"/Length 30\nstream\nshort");
    assert_eq!(ex.error, None);
    assert!(ex.streams.is_empty());
}

#[test]
fn compressed_stream_is_inflated() {
    let mut bytes = vec![0x78, 0x9c];
    bytes.extend(deflate(b"(22AUG)Tj hello"));
    let s = PDFStream { bytes };
    assert_eq!(s.decompress(), b"(22AUG)Tj hello".to_vec());
}

#[test]
fn plain_stream_is_kept() {
    let s = PDFStream { bytes: b"BT (22AUG)Tj ET".to_vec() };
    assert_eq!(s.decompress(), b"BT (22AUG)Tj ET".to_vec());
    let s = PDFStream { bytes: b"x".to_vec() };
    assert_eq!(s.decompress(), b"x".to_vec());
}
