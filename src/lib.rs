//! Extraction of a reconciled transaction ledger from the content streams of a
//! credit-card statement document.
//!
//! The pipeline: [`stream`] finds and inflates the document's embedded streams,
//! [`recognizer`] scans each for transaction and summary records (with the field
//! shapes of [`fields`]), [`transaction`] gives each transaction a content-derived
//! identity, [`category`] assigns it a category, and [`statement`] holds the ledger,
//! checks it against the declared totals and rolls it up by category. [`parser`]
//! runs the whole pipeline; [`learning`] grows a category store from a statement.
//! [`resync`] states why the scan recovers from noise between records.
pub mod amount;
pub mod bytes;
pub mod category;
pub mod date;
pub mod fields;
pub mod learning;
pub mod parser;
pub mod recognizer;
pub mod resync;
pub mod statement;
pub mod stream;
pub mod transaction;

pub use statement::Statement;
pub use transaction::Transaction;
