use libhsbc::amount::Amount;
use libhsbc::category::{
    any_pattern_occurs, categorize, contains_text, first_matching_category, Category,
};
use libhsbc::statement::Statement;
use libhsbc::transaction::{identity_input, identity_of_parts, Transaction};

fn tx(details: &str, hundredths: u128, category: &str) -> Transaction {
    Transaction {
        id: String::new(),
        date: 1724284800,
        details: details.to_string(),
        amount: Amount { hundredths },
        category: category.to_string(),
    }
}

fn statement(credits: Vec<Transaction>, debits: Vec<Transaction>, tc: u128, td: u128) -> Statement {
    Statement {
        categories: Vec::new(),
        total_credits: Amount { hundredths: tc },
        total_debits: Amount { hundredths: td },
        credits,
        debits,
    }
}

fn cat(name: &str, patterns: &[&str]) -> Category {
    Category { name: name.to_string(), patterns: patterns.iter().map(|p| p.to_string()).collect() }
}

#[test]
fn reconciled_statement_validates() {
    let st = statement(
        vec![tx("REFUND", 13950, "Unknown")],
        vec![tx("TESCO", 1005, "Food"), tx("SHELL", 4000, "Fuel")],
        13950,
        5005,
    );
    assert!(st.validate());
    assert!(statement(Vec::new(), Vec::new(), 0, 0).validate());
}

#[test]
fn credits_off_by_one_hundredth_fail() {
    let st = statement(vec![tx("REFUND", 13950, "Unknown")], Vec::new(), 13951, 0);
    assert!(!st.validate());
}

#[test]
fn debits_off_by_one_hundredth_fail() {
    let st = statement(Vec::new(), vec![tx("TESCO", 1005, "Food")], 0, 1004);
    assert!(!st.validate());
}

#[test]
fn overflowing_sum_does_not_validate() {
    let st = statement(
        vec![tx("A", u128::MAX, "X"), tx("B", 1, "X")],
        Vec::new(),
        0,
        0,
    );
    assert!(!st.validate());
}

#[test]
fn overview_groups_by_category_in_first_seen_order() {
    let mut st = statement(
        vec![tx("REFUND", 500, "Food")],
        vec![tx("TESCO", 1005, "Food"), tx("SHELL", 4000, "Fuel"), tx("ALDI", 95, "Food")],
        500,
        5100,
    );
    st.calculate_category_overview();
    assert_eq!(st.categories.len(), 2);
    assert_eq!(st.categories[0].name, "Food");
    assert_eq!(st.categories[0].count, 3);
    assert_eq!(st.categories[0].credits, 500);
    assert_eq!(st.categories[0].debits, 1100);
    assert_eq!(st.categories[1].name, "Fuel");
    assert_eq!(st.categories[1].count, 1);
    assert_eq!(st.categories[1].credits, 0);
    assert_eq!(st.categories[1].debits, 4000);
    st.calculate_category_overview();
    assert_eq!(st.categories.len(), 2);
    assert_eq!(st.credits.len(), 1);
}

#[test]
fn transactions_of_a_category_keep_their_order() {
    let st = statement(
        vec![tx("REFUND", 500, "Food")],
        vec![tx("TESCO", 1005, "Food"), tx("SHELL", 4000, "Fuel"), tx("ALDI", 95, "Food")],
        0,
        0,
    );
    let food: Vec<&str> =
        st.get_debits_for_category("Food").iter().map(|t| t.details.as_str()).collect();
    assert_eq!(food, vec!["TESCO", "ALDI"]);
    assert_eq!(st.get_credits_for_category("Food").len(), 1);
    assert!(st.get_credits_for_category("Fuel").is_empty());
}

#[test]
fn pattern_matches_ignoring_case() {
    let c = cat("Groceries", &["tesco"]);
    assert!(c.is_match("TESCO STORES LONDON"));
    assert!(c.is_match("Big Tesco"));
    assert!(!c.is_match("SAINSBURYS"));
    assert!(!cat("None", &[]).is_match("TESCO"));
}

#[test]
fn first_matching_category_wins() {
    let store = vec![cat("Fuel", &["shell"]), cat("Groceries", &["tesco", "aldi"]), cat("Tesco", &["tesco"])];
    assert_eq!(categorize(&store, "TESCO STORES LONDON"), "Groceries");
    assert_eq!(categorize(&store, "SHELL EXPRESS"), "Fuel");
    assert_eq!(categorize(&store, "CAFE NERO"), "Unknown");
}

#[test]
fn store_without_patterns_gives_unknown() {
    assert_eq!(categorize(&Vec::new(), "TESCO STORES LONDON"), "Unknown");
    let store = vec![cat("Groceries", &[]), cat("Fuel", &[])];
    assert_eq!(categorize(&store, "TESCO STORES LONDON"), "Unknown");
    assert_eq!(categorize(&store, ""), "Unknown");
}

#[test]
fn substring_search() {
    assert!(contains_text("tesco stores", "stores"));
    assert!(contains_text("abc", ""));
    assert!(!contains_text("ab", "abc"));
    assert!(!contains_text("tesco", "tesko"));
}

#[test]
fn identity_input_layout() {
    let mut expected = vec![0u8; 8];
    expected.extend_from_slice(b"AB1.50");
    assert_eq!(identity_input(0, "AB", Amount { hundredths: 150 }), expected);
    let mut expected = vec![0xff; 8];
    expected.extend_from_slice(b"x0.05");
    assert_eq!(identity_input(-1, "x", Amount { hundredths: 5 }), expected);
    let got = identity_input(1724284800, "", Amount { hundredths: 123456789 });
    assert_eq!(&got[..8], &1724284800i64.to_be_bytes());
    assert_eq!(&got[8..], b"1234567.89");
}

#[test]
fn identity_is_the_digest_of_its_input() {
    assert_eq!(
        identity_of_parts(1724284800, "HOBBS OF HURST", Amount { hundredths: 13950 }),
        "d170062197fb514258bc1eb9978eaf559520e53605b6c15251c49f3ea5596386"
    );
    assert_eq!(
        identity_of_parts(0, "AB", Amount { hundredths: 150 }),
        "3d49bd3d75ea2cccda110aa740f3cab6dd858b0dc785ae43a62e21d0def54676"
    );
}

#[test]
fn identity_is_deterministic_and_field_sensitive() {
    let a = tx("HOBBS OF HURST", 13950, "Unknown");
    let b = tx("HOBBS OF HURST", 13950, "Other");
    assert_eq!(a.hash(), b.hash());
    assert_eq!(a.hash(), a.hash());
    let mut c = tx("HOBBS OF HURST", 13950, "Unknown");
    c.date += 86400;
    assert_ne!(a.hash(), c.hash());
    assert_ne!(a.hash(), tx("HOBBS OF HURSTS", 13950, "Unknown").hash());
    assert_ne!(a.hash(), tx("HOBBS OF HURST", 13951, "Unknown").hash());
}

#[test]
fn folded_patterns_are_matched_as_given() {
    let pats = vec!["tesco".to_string(), "aldi".to_string()];
    assert!(any_pattern_occurs(&pats, "big aldi market"));
    assert!(!any_pattern_occurs(&pats, "BIG ALDI MARKET"));
    assert!(!any_pattern_occurs(&Vec::new(), "tesco"));
}

#[test]
fn first_matching_category_over_folded_table() {
    let names = vec!["Fuel".to_string(), "Groceries".to_string()];
    let table = vec![vec!["shell".to_string()], vec!["tesco".to_string(), "shell".to_string()]];
    assert_eq!(first_matching_category(&names, &table, "shell express"), "Fuel");
    assert_eq!(first_matching_category(&names, &table, "tesco metro"), "Groceries");
    assert_eq!(first_matching_category(&names, &table, "cafe nero"), "Unknown");
}
