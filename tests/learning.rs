use libhsbc::amount::Amount;
use libhsbc::category::Category;
use libhsbc::learning::add_categories;
use libhsbc::statement::Statement;
use libhsbc::transaction::Transaction;

fn tx(details: &str) -> Transaction {
    Transaction {
        id: String::new(),
        date: 0,
        details: details.to_string(),
        amount: Amount { hundredths: 100 },
        category: "Unknown".to_string(),
    }
}

fn cat(name: &str, patterns: &[&str]) -> Category {
    Category { name: name.to_string(), patterns: patterns.iter().map(|p| p.to_string()).collect() }
}

#[test]
fn unmatched_details_are_learned_as_unknown() {
    let st = Statement {
        categories: Vec::new(),
        total_credits: Amount::zero(),
        total_debits: Amount::zero(),
        credits: vec![tx("REFUND LTD")],
        debits: vec![tx("TESCO STORES"), tx("CAFE NERO"), tx("CAFE NERO"), tx("SHELL")],
    };
    let mut store = vec![cat("Groceries", &["tesco"]), cat("Fuel", &["shell"])];
    add_categories(&mut store, &st);
    let names: Vec<&str> = store.iter().map(|c| c.name.as_str()).collect();
    assert_eq!(names, vec!["Groceries", "Fuel", "Unknown"]);
    assert_eq!(store[2].patterns, vec!["CAFE NERO".to_string(), "REFUND LTD".to_string()]);
    assert_eq!(store[0].patterns, vec!["tesco".to_string()]);
}

#[test]
fn existing_unknown_category_grows() {
    let st = Statement {
        categories: Vec::new(),
        total_credits: Amount::zero(),
        total_debits: Amount::zero(),
        credits: Vec::new(),
        debits: vec![tx("ALDI"), tx("aldi market")],
    };
    let mut store = vec![cat("Unknown", &["cafe"]), cat("Bills", &["dewa"])];
    add_categories(&mut store, &st);
    assert_eq!(store[0].name, "Unknown");
    assert_eq!(store[1].name, "Bills");
    assert_eq!(
        store[0].patterns,
        vec!["cafe".to_string(), "ALDI".to_string()]
    );
}

#[test]
fn store_order_is_kept_when_nothing_is_learned() {
    let st = Statement {
        categories: Vec::new(),
        total_credits: Amount::zero(),
        total_debits: Amount::zero(),
        credits: vec![tx("ALPHA STORE")],
        debits: vec![tx("BETA STORE")],
    };
    let mut store = vec![cat("b", &["beta"]), cat("a", &["alpha"])];
    add_categories(&mut store, &st);
    let names: Vec<&str> = store.iter().map(|c| c.name.as_str()).collect();
    assert_eq!(names, vec!["b", "a"]);
    assert_eq!(store[0].patterns, vec!["beta".to_string()]);
    assert_eq!(store[1].patterns, vec!["alpha".to_string()]);
}
