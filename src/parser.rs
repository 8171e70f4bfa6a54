//! The whole pipeline: from the bytes of a statement document to its ledger.
use vstd::prelude::*;
use crate::amount::Amount;
use crate::category::{
    Category, CategoryView, categorize, category_for, lemma_patternless_store_is_unknown,
    unknown_category,
};
use crate::recognizer::{
    Recognized, RecordView, last_summary, scan_records, scan_summary, scan_transactions,
};
use crate::statement::Statement;
use crate::stream::{
    PDFStream, StructuralError, decompressed, document_streams, extract_streams,
};
use crate::transaction::{Transaction, TransactionView, identity_of, views};

verus! {

/// What `String::from_utf8_lossy` gives for some bytes.
pub uninterp spec fn lossy_text_of(bytes: Seq<u8>) -> Seq<char>;

/// Relies on `String::from_utf8_lossy`: the bytes read as UTF-8, each invalid
/// sequence replaced by U+FFFD; the result depends on the bytes alone, and ASCII
/// bytes come back as the same characters.
#[verifier::external_body]
fn utf8_lossy(bytes: &[u8]) -> (r: String)
    ensures
        r@ == lossy_text_of(bytes@),
        (forall|i: int| 0 <= i < bytes@.len() ==> #[trigger] bytes@[i] < 128) ==> r@.len()
            == bytes@.len() && forall|i: int|
            0 <= i < bytes@.len() ==> #[trigger] r@[i] as u32 == bytes@[i] as u32,
{
    String::from_utf8_lossy(bytes).into_owned()
}

/// What a document gives: the statement of its streams before any structural
/// error, and that error.
pub struct Parsed {
    pub statement: Statement,
    pub error: Option<StructuralError>,
}

/// Reads statements of one year, assigning categories from an ordered store.
pub struct Parser {
    /// The categories, in store order: the first that matches a transaction wins.
    pub categories: Vec<Category>,
    /// The year of the statement's transactions, which the document does not give.
    pub reference_year: i32,
}

/// The views of a category store.
pub open spec fn category_views(cats: Seq<Category>) -> Seq<CategoryView> {
    cats.map_values(|c: Category| c@)
}

/// The transaction made from a recognized record.
pub open spec fn transaction_of(r: RecordView, cats: Seq<CategoryView>) -> TransactionView {
    let details = lossy_text_of(r.details);
    TransactionView {
        id: identity_of(r.date, details, r.hundredths as nat),
        date: r.date,
        details,
        hundredths: r.hundredths,
        category: category_for(cats, details),
    }
}

/// The transactions made from the records of `recs` that are credits (`credit`) or
/// debits (`!credit`), in order.
pub open spec fn side_of(recs: Seq<RecordView>, cats: Seq<CategoryView>, credit: bool) -> Seq<
    TransactionView,
>
    decreases recs.len(),
{
    if recs.len() == 0 {
        seq![]
    } else if recs.last().is_credit == credit {
        side_of(recs.drop_last(), cats, credit).push(transaction_of(recs.last(), cats))
    } else {
        side_of(recs.drop_last(), cats, credit)
    }
}

/// The records of a sequence of content streams, stream after stream.
pub open spec fn records_of(bufs: Seq<Seq<u8>>, year: int) -> Seq<RecordView>
    decreases bufs.len(),
{
    if bufs.len() == 0 {
        seq![]
    } else {
        records_of(bufs.drop_last(), year) + scan_records(bufs.last(), 0, year)
    }
}

/// The declared totals of a sequence of content streams: those of the last summary
/// record, or zero where there is none.
pub open spec fn totals_of(bufs: Seq<Seq<u8>>) -> (int, int)
    decreases bufs.len(),
{
    if bufs.len() == 0 {
        (0, 0)
    } else {
        match last_summary(bufs.last(), 0) {
            Some(t) => t,
            None => totals_of(bufs.drop_last()),
        }
    }
}

/// The content of each of `streams`, in order.
pub open spec fn contents_of(streams: Seq<PDFStream>) -> Seq<Seq<u8>> {
    streams.map_values(|s: PDFStream| decompressed(s.bytes@))
}

/// `st` is the statement made from content streams `bufs` in `year` with categories `cats`.
pub open spec fn statement_of(
    st: Statement,
    bufs: Seq<Seq<u8>>,
    year: int,
    cats: Seq<CategoryView>,
) -> bool {
    &&& views(st.credits@) == side_of(records_of(bufs, year), cats, true)
    &&& views(st.debits@) == side_of(records_of(bufs, year), cats, false)
    &&& st.total_credits.hundredths == totals_of(bufs).0
    &&& st.total_debits.hundredths == totals_of(bufs).1
    &&& st.categories@.len() == 0
}

proof fn lemma_side_categories(recs: Seq<RecordView>, cats: Seq<CategoryView>, credit: bool)
    ensures
        forall|k: int|
            0 <= k < side_of(recs, cats, credit).len() ==> (#[trigger] side_of(
                recs,
                cats,
                credit,
            )[k]).category == category_for(cats, side_of(recs, cats, credit)[k].details),
    decreases recs.len(),
{
    if recs.len() > 0 {
        let prev = side_of(recs.drop_last(), cats, credit);
        let cur = side_of(recs, cats, credit);
        lemma_side_categories(recs.drop_last(), cats, credit);
        assert forall|k: int| 0 <= k < cur.len() implies (#[trigger] cur[k]).category == category_for(
            cats,
            cur[k].details,
        ) by {
            if k < prev.len() {
                assert(cur[k] == prev[k]);
            }
        }
    }
}

/// With a category store in which no category has a pattern, every credit and
/// every debit of a parsed statement is in the unknown category.
pub proof fn lemma_patternless_store_gives_unknown(
    st: Statement,
    bufs: Seq<Seq<u8>>,
    year: int,
    cats: Seq<CategoryView>,
)
    requires
        statement_of(st, bufs, year, cats),
        forall|i: int| 0 <= i < cats.len() ==> (#[trigger] cats[i]).patterns.len() == 0,
    ensures
        forall|k: int| 0 <= k < st.credits@.len() ==> (#[trigger] st.credits@[k]).category@
            == unknown_category(),
        forall|k: int| 0 <= k < st.debits@.len() ==> (#[trigger] st.debits@[k]).category@
            == unknown_category(),
{
    let recs = records_of(bufs, year);
    lemma_side_categories(recs, cats, true);
    lemma_side_categories(recs, cats, false);
    assert forall|k: int| 0 <= k < st.credits@.len() implies (#[trigger] st.credits@[k]).category@
        == unknown_category() by {
        assert(views(st.credits@)[k] == st.credits@[k]@);
        lemma_patternless_store_is_unknown(cats, views(st.credits@)[k].details);
    }
    assert forall|k: int| 0 <= k < st.debits@.len() implies (#[trigger] st.debits@[k]).category@
        == unknown_category() by {
        assert(views(st.debits@)[k] == st.debits@[k]@);
        lemma_patternless_store_is_unknown(cats, views(st.debits@)[k].details);
    }
}

fn transaction_from(rec: &Recognized, categories: &Vec<Category>) -> (r: Transaction)
    ensures
        r@ == transaction_of(rec@, category_views(categories@)),
{
    let details = utf8_lossy(rec.details.as_slice());
    let id = crate::transaction::identity_of_parts(rec.date, details.as_str(), rec.amount);
    let category = categorize(categories, details.as_str());
    Transaction { id, date: rec.date, details, amount: rec.amount, category }
}

impl Parser {
    /// A parser for statements of `reference_year`, with an ordered category store.
    pub fn new(categories: Vec<Category>, reference_year: i32) -> (r: Parser)
        ensures
            r.categories@ == categories@,
            r.reference_year == reference_year,
    {
        Parser { categories, reference_year }
    }

    /// The statement made from streams already extracted from a document.
    pub fn statement_from_streams(&self, streams: &Vec<PDFStream>) -> (r: Statement)
        ensures
            statement_of(
                r,
                contents_of(streams@),
                self.reference_year as int,
                category_views(self.categories@),
            ),
    {
        let ghost bufs = contents_of(streams@);
        let ghost year = self.reference_year as int;
        let ghost cats = category_views(self.categories@);
        let mut credits: Vec<Transaction> = Vec::new();
        let mut debits: Vec<Transaction> = Vec::new();
        let mut total_credits = Amount::zero();
        let mut total_debits = Amount::zero();
        let mut i: usize = 0;
        while i < streams.len()
            invariant
                bufs == contents_of(streams@),
                year == self.reference_year as int,
                cats == category_views(self.categories@),
                i <= streams@.len(),
                views(credits@) == side_of(records_of(bufs.subrange(0, i as int), year), cats, true),
                views(debits@) == side_of(records_of(bufs.subrange(0, i as int), year), cats, false),
                total_credits.hundredths == totals_of(bufs.subrange(0, i as int)).0,
                total_debits.hundredths == totals_of(bufs.subrange(0, i as int)).1,
            decreases streams.len() - i,
        {
            let content = streams[i].decompress();
            let ghost pre = bufs.subrange(0, i as int);
            let ghost next = bufs.subrange(0, i + 1);
            assert(next.drop_last() =~= pre);
            assert(next.last() == content@);
            match scan_summary(content.as_slice()) {
                Some((c, d)) => {
                    total_credits = c;
                    total_debits = d;
                },
                None => {},
            }
            let recs = scan_transactions(content.as_slice(), self.reference_year);
            let ghost found = recs@.map_values(|x: Recognized| x@);
            let ghost base = records_of(pre, year);
            let mut k: usize = 0;
            while k < recs.len()
                invariant
                    cats == category_views(self.categories@),
                    found == recs@.map_values(|x: Recognized| x@),
                    k <= recs@.len(),
                    views(credits@) == side_of(base + found.subrange(0, k as int), cats, true),
                    views(debits@) == side_of(base + found.subrange(0, k as int), cats, false),
                decreases recs.len() - k,
            {
                assert((base + found.subrange(0, k + 1)).drop_last() =~= base + found.subrange(
                    0,
                    k as int,
                ));
                assert((base + found.subrange(0, k + 1)).last() == recs@[k as int]@);
                let t = transaction_from(&recs[k], &self.categories);
                let ghost tv = t@;
                if recs[k].is_credit {
                    let ghost before = views(credits@);
                    credits.push(t);
                    assert(views(credits@) =~= before.push(tv));
                } else {
                    let ghost before = views(debits@);
                    debits.push(t);
                    assert(views(debits@) =~= before.push(tv));
                }
                k = k + 1;
            }
            assert(found.subrange(0, k as int) =~= found);
            assert(records_of(next, year) == base + scan_records(content@, 0, year));
            i = i + 1;
        }
        assert(bufs.subrange(0, i as int) =~= bufs);
        Statement { categories: Vec::new(), total_credits, total_debits, credits, debits }
    }

    /// The statement made from the streams of a document that come before any
    /// structural error, together with that error, if any.
    pub fn parse_partial(&self, data: &[u8]) -> (r: Parsed)
        ensures
            r.error == document_streams(data@).1,
            statement_of(
                r.statement,
                document_streams(data@).0.map_values(|s: Seq<u8>| decompressed(s)),
                self.reference_year as int,
                category_views(self.categories@),
            ),
    {
        let found = extract_streams(data);
        let statement = self.statement_from_streams(&found.streams);
        assert(contents_of(found.streams@) =~= document_streams(data@).0.map_values(
            |s: Seq<u8>| decompressed(s),
        ));
        Parsed { statement, error: found.error }
    }

    /// The statement in a document. Fails where the document's stream framing is
    /// malformed.
    pub fn parse(&self, data: &[u8]) -> (r: Result<Statement, StructuralError>)
        ensures
            match document_streams(data@).1 {
                Some(e) => r == Err::<Statement, StructuralError>(e),
                None => r matches Ok(st) && statement_of(
                    st,
                    document_streams(data@).0.map_values(|s: Seq<u8>| decompressed(s)),
                    self.reference_year as int,
                    category_views(self.categories@),
                ),
            },
    {
        let parsed = self.parse_partial(data);
        match parsed.error {
            Some(e) => Err(e),
            None => Ok(parsed.statement),
        }
    }
}

} // verus!
