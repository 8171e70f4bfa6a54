use libhsbc::amount::Amount;
use libhsbc::fields::{take_amount, take_date, take_desc};
use libhsbc::recognizer::{read_record, scan_summary, scan_transactions};

const HOBBS: &str = "(24AUG)Tj 1 0 0 1 109.9 324.4 Tm\n\
(22AUG)Tj 1 0 0 1 149.5 324.4 Tm\n\
(HOBBS OF HURST         HASSOCKS)Tj 1 0 0 1 149.5 316.3 Tm\n\
(GBR)Tj 1 0 0 1 316.5 324.4 Tm\n\
(GBP)Tj 1 0 0 1 427.9 324.4 Tm\n\
(30.03)Tj 1 0 0 1 504.7 324.4 Tm\n\
(139.50)Tj 1 0 0 1 523.2 324.4 Tm\n\
(CR)Tj 1 0 0 1 523.9 587.2 Tm\n";

const CAFE: &str = "(02SEP)Tj 1 0 0 1 109.9 300.1 Tm\n\
(01SEP)Tj 1 0 0 1 149.5 300.1 Tm\n\
(NFC - \\(AP-PAY\\)-)Tj 1 0 0 1 199.9 300.1 Tm\n\
(CAFE NERO  LONDON)Tj 1 0 0 1 149.5 292.0 Tm\n\
(1,204.07)Tj 1 0 0 1 523.2 300.1 Tm\n";

#[test]
fn vendor_record_is_recognized() {
    let recs = scan_transactions(HOBBS.as_bytes(), 2024);
    assert_eq!(recs.len(), 1);
    assert_eq!(recs[0].date, 1724284800);
    assert_eq!(recs[0].details, b"HOBBS OF HURST".to_vec());
    assert_eq!(recs[0].amount, Amount { hundredths: 13950 });
    assert!(recs[0].is_credit);
}

#[test]
fn record_with_payment_method_and_one_amount_is_a_debit() {
    let recs = scan_transactions(CAFE.as_bytes(), 2024);
    assert_eq!(recs.len(), 1);
    assert_eq!(recs[0].details, b"CAFE NERO".to_vec());
    assert_eq!(recs[0].amount, Amount { hundredths: 120407 });
    assert!(!recs[0].is_credit);
}

#[test]
fn noise_around_records_is_skipped() {
    let buf = format!(
        "BT /F1 9 Tf (Statement of account)Tj 0 g\n{}q 0.5 w 12 34 m 56 78 l S Q\n{}ET endobj\n",
        HOBBS, CAFE
    );
    let recs = scan_transactions(buf.as_bytes(), 2024);
    assert_eq!(recs.len(), 2);
    assert_eq!(recs[0].details, b"HOBBS OF HURST".to_vec());
    assert_eq!(recs[1].details, b"CAFE NERO".to_vec());
}

#[test]
fn buffer_without_records_yields_none() {
    assert!(scan_transactions(b"", 2024).is_empty());
    assert!(scan_transactions(b"BT (Page 1 of 2)Tj ET (12.00)", 2024).is_empty());
}

#[test]
fn impossible_day_is_not_a_record() {
    let buf = HOBBS.replace("(22AUG)", "(31FEB)");
    assert!(scan_transactions(buf.as_bytes(), 2024).is_empty());
    assert!(read_record(buf.as_bytes(), 0, 2024).is_none());
}

#[test]
fn leap_day_depends_on_the_year() {
    let buf = HOBBS.replace("(22AUG)", "(29FEB)");
    assert_eq!(scan_transactions(buf.as_bytes(), 2024).len(), 1);
    assert!(scan_transactions(buf.as_bytes(), 2023).is_empty());
}

#[test]
fn read_record_reports_its_end() {
    let (rec, end) = read_record(HOBBS.as_bytes(), 0, 2024).unwrap();
    assert_eq!(rec.amount.hundredths, 13950);
    assert_eq!(&HOBBS.as_bytes()[end - 4..end], b"(CR)");
}

#[test]
fn date_field_reads_day_and_month() {
    assert_eq!(take_date(b"xx (22AUG)Tj", 0), Some((22, 8, 10)));
    assert_eq!(take_date(b"(05DEC)", 0), Some((5, 12, 7)));
    assert_eq!(take_date(b"(5DEC)", 0), None);
    assert_eq!(take_date(b"(22ABC)", 0), None);
    assert_eq!(take_date(b"22AUG", 0), None);
}

#[test]
fn amount_field_is_exact() {
    assert_eq!(take_amount(b"(1,234.56)", 0), Some((123456, 10)));
    assert_eq!(take_amount(b"Tj (0.05)", 0), Some((5, 9)));
    assert_eq!(take_amount(b"(12.5)", 0), None);
    assert_eq!(take_amount(b"(12)", 0), None);
    assert_eq!(take_amount(b"(.50)", 0), None);
    assert_eq!(take_amount(b"(1,234,567.89)", 0), Some((123456789, 14)));
    assert_eq!(
        take_amount(b"(99,999,999,999,999,999,999,999,999.99)", 0),
        Some((9_999_999_999_999_999_999_999_999_999, 39))
    );
    assert_eq!(
        take_amount(b"(3402823669209384634633746074317682114.55)", 0),
        Some((u128::MAX, 42))
    );
    assert_eq!(take_amount(b"(3402823669209384634633746074317682114.56)", 0), None);
}

#[test]
fn malformed_amount_groups_are_rejected() {
    assert_eq!(take_amount(b"(,.50)", 0), None);
    assert_eq!(take_amount(b"(1,,2.00)", 0), None);
    assert_eq!(take_amount(b"(,12.00)", 0), None);
    assert_eq!(take_amount(b"(12,.00)", 0), None);
    assert_eq!(take_amount(b"(1,2.00)", 0), Some((1200, 8)));
}

#[test]
fn description_field_takes_everything_up_to_the_close() {
    assert_eq!(take_desc(b"Tj (A B  C)Tj", 0), Some((4, 10, 11)));
    assert_eq!(take_desc(b"(unclosed", 0), None);
}

#[test]
fn summary_totals_are_read() {
    let buf = b"BT ( Payments/Credits)Tj 1 0 0 1 3 4 Tm (1,139.50)Tj ( New charges/debits)Tj (2,018.33)Tj ET";
    assert_eq!(
        scan_summary(buf),
        Some((Amount { hundredths: 113950 }, Amount { hundredths: 201833 }))
    );
    assert_eq!(scan_summary(b"( Payments/Credits)(1.00)"), None);
}

#[test]
fn last_summary_wins() {
    let buf = b"( Payments/Credits)(1.00)( New charges/debits)(2.00) ( Payments/Credits)(3.00)( New charges/debits)(4.00)";
    assert_eq!(
        scan_summary(buf),
        Some((Amount { hundredths: 300 }, Amount { hundredths: 400 }))
    );
}
