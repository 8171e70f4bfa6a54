use libhsbc::category::Category;
use libhsbc::parser::Parser;
use libhsbc::stream::StructuralError;
use std::io::Write;

fn deflate(data: &[u8]) -> Vec<u8> {
    let mut enc = flate2::write::DeflateEncoder::new(Vec::new(), flate2::Compression::default());
    enc.write_all(data).unwrap();
    enc.finish().unwrap()
}

fn with_stream(doc: &mut Vec<u8>, payload: &[u8]) {
    doc.extend_from_slice(format!("1 0 obj\n<</Length {}\n>>\nstream\n", payload.len()).as_bytes());
    doc.extend_from_slice(payload);
    doc.extend_from_slice(b"\nendstream\nendobj\n");
}

fn document() -> Vec<u8> {
    let page1 = b"BT ( Payments/Credits)Tj (139.50)Tj ( New charges/debits)Tj (1,245.07)Tj\n\
(24AUG)Tj (22AUG)Tj (HOBBS OF HURST         HASSOCKS)Tj (GBR)Tj (GBP)Tj (30.03)Tj (139.50)Tj (CR)Tj\n\
(26AUG)Tj (25AUG)Tj (TESCO STORES LONDON)Tj (41.00)Tj ET";
    let mut compressed = vec![0x78, 0x9c];
    compressed.extend(deflate(page1));
    let page2 = b"BT (02SEP)Tj (01SEP)Tj (NFC - \\(AP-PAY\\)-)Tj (CAFE NERO  LONDON)Tj (1,204.07)Tj ET";
    let mut doc = b"%PDF-1.3\n".to_vec();
    with_stream(&mut doc, &compressed);
    with_stream(&mut doc, page2);
    doc
}

#[test]
fn document_is_parsed_into_a_reconciled_ledger() {
    let store = vec![Category { name: "Groceries".to_string(), patterns: vec!["tesco".to_string()] }];
    let parser = Parser::new(store, 2024);
    let mut st = parser.parse(&document()).unwrap();
    assert_eq!(st.total_credits.hundredths, 13950);
    assert_eq!(st.total_debits.hundredths, 124507);
    assert_eq!(st.credits.len(), 1);
    assert_eq!(st.debits.len(), 2);
    assert_eq!(st.credits[0].details, "HOBBS OF HURST");
    assert_eq!(st.credits[0].date, 1724284800);
    assert_eq!(st.credits[0].category, "Unknown");
    assert_eq!(st.credits[0].id, "d170062197fb514258bc1eb9978eaf559520e53605b6c15251c49f3ea5596386");
    assert_eq!(st.debits[0].details, "TESCO STORES LONDON");
    assert_eq!(st.debits[0].category, "Groceries");
    assert_eq!(st.debits[1].details, "CAFE NERO");
    assert_eq!(st.debits[1].date, 1725148800);
    assert_eq!(st.debits[1].amount.hundredths, 120407);
    assert!(st.validate());
    for t in st.credits.iter().chain(st.debits.iter()) {
        assert_eq!(t.id, t.hash());
    }
    st.calculate_category_overview();
    assert_eq!(st.categories.len(), 2);
    assert_eq!(st.categories[0].name, "Unknown");
    assert_eq!(st.categories[0].count, 2);
    assert_eq!(st.categories[1].name, "Groceries");
}

#[test]
fn structural_error_is_reported() {
    let mut doc = document();
    doc.extend_from_slice(b"2 0 obj\n<</Length 7 0 R>>\nstream\n");
    let parser = Parser::new(Vec::new(), 2024);
    assert_eq!(parser.parse(&doc).err(), Some(StructuralError::InvalidLength));
    let partial = parser.parse_partial(&doc);
    assert_eq!(partial.error, Some(StructuralError::InvalidLength));
    assert_eq!(partial.statement.credits.len(), 1);
    assert_eq!(partial.statement.debits.len(), 2);
    assert!(partial.statement.validate());
}

#[test]
fn document_without_records_gives_empty_statement() {
    let parser = Parser::new(Vec::new(), 2024);
    let st = parser.parse(b"%PDF-1.3 no streams").unwrap();
    assert!(st.credits.is_empty() && st.debits.is_empty());
    assert_eq!(st.total_credits.hundredths, 0);
    assert!(st.validate());
}

#[test]
fn invalid_utf8_in_details_is_replaced() {
    let mut page = b"(24AUG)Tj (22AUG)Tj (CAF".to_vec();
    page.push(0xE9);
    page.extend_from_slice(b" LYON  FRA)Tj (12.00)Tj");
    let mut doc = b"%PDF-1.3\n".to_vec();
    with_stream(&mut doc, &page);
    let st = Parser::new(Vec::new(), 2024).parse(&doc).unwrap();
    assert_eq!(st.debits.len(), 1);
    assert_eq!(st.debits[0].details, "CAF\u{FFFD} LYON");
    assert_eq!(st.debits[0].amount.hundredths, 1200);
}
