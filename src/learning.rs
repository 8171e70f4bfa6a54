//! Growing a category store from a parsed statement: the details of every
//! transaction that no category matches become patterns of the unknown category.
use vstd::prelude::*;
use crate::category::{
    Category, CategoryView, UNKNOWN_CATEGORY, lower_of, matches_any, unknown_category,
};
use crate::statement::Statement;
use crate::transaction::Transaction;

verus! {

/// The views of a category store.
pub open spec fn store_view(cats: Seq<Category>) -> Seq<CategoryView> {
    cats.map_values(|c: Category| c@)
}

/// The position of the first category named like the unknown category, from `i` on.
pub open spec fn unknown_from(cats: Seq<CategoryView>, i: int) -> Option<int>
    decreases cats.len() - i,
{
    if i < 0 || i >= cats.len() {
        None
    } else if cats[i].name == unknown_category() {
        Some(i)
    } else {
        unknown_from(cats, i + 1)
    }
}

/// Some category of `cats` matches `details`.
pub open spec fn any_matches(cats: Seq<CategoryView>, details: Seq<char>) -> bool {
    exists|i: int| 0 <= i < cats.len() && matches_any(#[trigger] cats[i].patterns, lower_of(details))
}

/// The store after learning from one transaction's details.
pub open spec fn learn_one(cats: Seq<CategoryView>, details: Seq<char>) -> Seq<CategoryView> {
    if any_matches(cats, details) {
        cats
    } else {
        match unknown_from(cats, 0) {
            Some(j) => cats.update(
                j,
                CategoryView { name: cats[j].name, patterns: cats[j].patterns.push(details) },
            ),
            None => cats.push(CategoryView { name: unknown_category(), patterns: seq![details] }),
        }
    }
}

/// The store after learning from each of `ds` in turn.
pub open spec fn learn_all(cats: Seq<CategoryView>, ds: Seq<Seq<char>>) -> Seq<CategoryView>
    decreases ds.len(),
{
    if ds.len() == 0 {
        cats
    } else {
        learn_one(learn_all(cats, ds.drop_last()), ds.last())
    }
}

/// The details of a sequence of transactions.
pub open spec fn details_of(ts: Seq<Transaction>) -> Seq<Seq<char>> {
    ts.map_values(|t: Transaction| t.details@)
}

fn unknown_index(cats: &Vec<Category>) -> (r: Option<usize>)
    ensures
        match r {
            Some(j) => unknown_from(store_view(cats@), 0) == Some(j as int),
            None => unknown_from(store_view(cats@), 0) is None,
        },
        r matches Some(j) ==> j < cats@.len(),
{
    let ghost v = store_view(cats@);
    proof {
        reveal_strlit("Unknown");
    }
    let unknown = UNKNOWN_CATEGORY.to_owned();
    assert(unknown@ =~= unknown_category());
    let mut i: usize = 0;
    while i < cats.len()
        invariant
            v == store_view(cats@),
            unknown@ == unknown_category(),
            i <= cats@.len(),
            unknown_from(v, 0) == unknown_from(v, i as int),
        decreases cats.len() - i,
    {
        if cats[i].name == unknown {
            return Some(i);
        }
        i = i + 1;
    }
    None
}

/// Learns from one transaction's details.
fn learn_details(cats: &mut Vec<Category>, details: &String)
    ensures
        store_view(final(cats)@) == learn_one(store_view(old(cats)@), details@),
{
    let ghost v = store_view(cats@);
    let mut i: usize = 0;
    while i < cats.len()
        invariant
            v == store_view(cats@),
            i <= cats@.len(),
            forall|j: int| 0 <= j < i ==> !matches_any(#[trigger] v[j].patterns, lower_of(details@)),
        decreases cats.len() - i,
    {
        if cats[i].is_match(details.as_str()) {
            assert(v[i as int].patterns == cats@[i as int]@.patterns);
            return;
        }
        i = i + 1;
    }
    match unknown_index(cats) {
        Some(j) => {
            let mut c = cats.remove(j);
            c.patterns.push(details.clone());
            let ghost cv = c@;
            cats.insert(j, c);
            assert(cv.patterns =~= v[j as int].patterns.push(details@));
            assert(store_view(cats@) =~= v.update(
                j as int,
                CategoryView { name: v[j as int].name, patterns: v[j as int].patterns.push(details@) },
            ));
        },
        None => {
            proof {
                reveal_strlit("Unknown");
            }
            let mut patterns: Vec<String> = Vec::new();
            patterns.push(details.clone());
            let c = Category { name: UNKNOWN_CATEGORY.to_owned(), patterns };
            let ghost cv = c@;
            assert(cv.patterns =~= seq![details@]);
            assert(cv.name =~= unknown_category());
            cats.push(c);
            assert(store_view(cats@) =~= v.push(
                CategoryView { name: unknown_category(), patterns: seq![details@] },
            ));
        },
    }
}

fn learn_list(cats: &mut Vec<Category>, ts: &Vec<Transaction>)
    ensures
        store_view(final(cats)@) == learn_all(store_view(old(cats)@), details_of(ts@)),
{
    let ghost start = store_view(cats@);
    let ghost ds = details_of(ts@);
    let mut i: usize = 0;
    while i < ts.len()
        invariant
            start == store_view(old(cats)@),
            ds == details_of(ts@),
            i <= ts@.len(),
            store_view(cats@) == learn_all(start, ds.subrange(0, i as int)),
        decreases ts.len() - i,
    {
        assert(ds.subrange(0, i + 1).drop_last() =~= ds.subrange(0, i as int));
        learn_details(cats, &ts[i].details);
        i = i + 1;
    }
    assert(ds.subrange(0, i as int) =~= ds);
}

/// Adds the details of each transaction of `statement` that no category matches,
/// debits first and then credits, as a pattern of the unknown category (created at
/// the end of the store where missing). The store keeps its order, which decides
/// the category of a transaction.
pub fn add_categories(categories: &mut Vec<Category>, statement: &Statement)
    ensures
        store_view(final(categories)@) == learn_all(
            store_view(old(categories)@),
            details_of(statement.debits@) + details_of(statement.credits@),
        ),
{
    let ghost start = store_view(categories@);
    learn_list(categories, &statement.debits);
    learn_list(categories, &statement.credits);
    proof {
        lemma_learn_all_concat(start, details_of(statement.debits@), details_of(statement.credits@));
    }
}

/// Learning from two lists in turn is learning from their concatenation.
pub proof fn lemma_learn_all_concat(cats: Seq<CategoryView>, a: Seq<Seq<char>>, b: Seq<Seq<char>>)
    ensures
        learn_all(learn_all(cats, a), b) == learn_all(cats, a + b),
    decreases b.len(),
{
    if b.len() == 0 {
        assert(a + b =~= a);
    } else {
        lemma_learn_all_concat(cats, a, b.drop_last());
        assert((a + b).drop_last() =~= a + b.drop_last());
        assert((a + b).last() == b.last());
    }
}

} // verus!
