//! Statements: the ledger of recognized transactions, its declared totals and its
//! per-category roll-up.
use vstd::prelude::*;
use crate::amount::Amount;
use crate::category::texts;
use crate::transaction::{Transaction, TransactionView, views};

verus! {

/// The roll-up of the transactions of one category.
#[derive(Debug)]
pub struct CategoryOverview {
    pub name: String,
    /// The number of credits and debits in the category.
    pub count: u64,
    /// The sum of the category's credits, in hundredths.
    pub credits: u128,
    /// The sum of the category's debits, in hundredths.
    pub debits: u128,
}

/// The mathematical content of a [`CategoryOverview`].
pub struct OverviewView {
    pub name: Seq<char>,
    pub count: int,
    pub credits: int,
    pub debits: int,
}

impl View for CategoryOverview {
    type V = OverviewView;

    open spec fn view(&self) -> OverviewView {
        OverviewView {
            name: self.name@,
            count: self.count as int,
            credits: self.credits as int,
            debits: self.debits as int,
        }
    }
}

/// A parsed statement.
#[derive(Debug)]
pub struct Statement {
    /// The per-category roll-up; see [`Statement::calculate_category_overview`].
    pub categories: Vec<CategoryOverview>,
    /// The cumulative credits declared by the statement's summary.
    pub total_credits: Amount,
    /// The cumulative debits declared by the statement's summary.
    pub total_debits: Amount,
    /// The credits, in document order.
    pub credits: Vec<Transaction>,
    /// The debits, in document order.
    pub debits: Vec<Transaction>,
}

/// The exact sum of the amounts of `ts`, in hundredths.
pub open spec fn sum_amounts(ts: Seq<TransactionView>) -> int
    decreases ts.len(),
{
    if ts.len() == 0 {
        0
    } else {
        sum_amounts(ts.drop_last()) + ts.last().hundredths
    }
}

/// The transactions of `ts` in category `name`, in order.
pub open spec fn in_category(ts: Seq<TransactionView>, name: Seq<char>) -> Seq<TransactionView>
    decreases ts.len(),
{
    if ts.len() == 0 {
        seq![]
    } else if ts.last().category == name {
        in_category(ts.drop_last(), name).push(ts.last())
    } else {
        in_category(ts.drop_last(), name)
    }
}

/// The distinct names of `names`, in the order in which each is first seen.
pub open spec fn first_seen(names: Seq<Seq<char>>) -> Seq<Seq<char>>
    decreases names.len(),
{
    if names.len() == 0 {
        seq![]
    } else if first_seen(names.drop_last()).contains(names.last()) {
        first_seen(names.drop_last())
    } else {
        first_seen(names.drop_last()).push(names.last())
    }
}

/// The category names of `ts`, in order.
pub open spec fn category_names(ts: Seq<TransactionView>) -> Seq<Seq<char>> {
    ts.map_values(|t: TransactionView| t.category)
}

/// The roll-up of category `name` over `credits` and `debits`.
pub open spec fn overview_entry(
    credits: Seq<TransactionView>,
    debits: Seq<TransactionView>,
    name: Seq<char>,
) -> OverviewView {
    OverviewView {
        name,
        count: (in_category(credits, name).len() + in_category(debits, name).len()) as int,
        credits: sum_amounts(in_category(credits, name)),
        debits: sum_amounts(in_category(debits, name)),
    }
}

/// The per-category roll-up of `credits` and `debits`: one entry for each category
/// that occurs, credits' categories first, each in first-seen order.
pub open spec fn overview_of(credits: Seq<TransactionView>, debits: Seq<TransactionView>) -> Seq<
    OverviewView,
> {
    first_seen(category_names(credits) + category_names(debits)).map_values(
        |name: Seq<char>| overview_entry(credits, debits, name),
    )
}

/// A statement reconciles: its credits and its debits each sum exactly to the
/// declared totals.
pub open spec fn reconciles(
    credits: Seq<TransactionView>,
    debits: Seq<TransactionView>,
    total_credits: int,
    total_debits: int,
) -> bool {
    sum_amounts(credits) == total_credits && sum_amounts(debits) == total_debits
}

pub proof fn lemma_sum_prefix(ts: Seq<TransactionView>, i: int)
    requires
        0 <= i <= ts.len(),
        forall|j: int| 0 <= j < ts.len() ==> #[trigger] ts[j].hundredths >= 0,
    ensures
        sum_amounts(ts.subrange(0, i)) <= sum_amounts(ts),
    decreases ts.len() - i,
{
    if i < ts.len() {
        lemma_sum_prefix(ts, i + 1);
        assert(ts.subrange(0, i + 1).drop_last() =~= ts.subrange(0, i));
    } else {
        assert(ts.subrange(0, i) =~= ts);
    }
}

/// The sum of the amounts of `ts`, or `None` where it exceeds `u128::MAX`.
fn total_of(ts: &Vec<Transaction>) -> (r: Option<u128>)
    ensures
        match r {
            Some(v) => v == sum_amounts(views(ts@)),
            None => sum_amounts(views(ts@)) > u128::MAX,
        },
{
    let ghost vs = views(ts@);
    let mut sum: u128 = 0;
    let mut i: usize = 0;
    while i < ts.len()
        invariant
            vs == views(ts@),
            i <= ts@.len(),
            sum == sum_amounts(vs.subrange(0, i as int)),
        decreases ts.len() - i,
    {
        assert(vs.subrange(0, i + 1).drop_last() =~= vs.subrange(0, i as int));
        match sum.checked_add(ts[i].amount.hundredths) {
            None => {
                proof {
                    lemma_sum_prefix(vs, i + 1);
                }
                return None;
            },
            Some(s) => {
                sum = s;
            },
        }
        i = i + 1;
    }
    assert(vs.subrange(0, i as int) =~= vs);
    Some(sum)
}

/// The members of `ts` in category `name`, in order.
fn members_in<'a>(ts: &'a Vec<Transaction>, name: &str) -> (r: Vec<&'a Transaction>)
    ensures
        r@.map_values(|t: &Transaction| t@) == in_category(views(ts@), name@),
{
    let ghost vs = views(ts@);
    let wanted = name.to_owned();
    let mut out: Vec<&Transaction> = Vec::new();
    let mut i: usize = 0;
    while i < ts.len()
        invariant
            vs == views(ts@),
            wanted@ == name@,
            i <= ts@.len(),
            out@.map_values(|t: &Transaction| t@) == in_category(vs.subrange(0, i as int), name@),
        decreases ts.len() - i,
    {
        assert(vs.subrange(0, i + 1).drop_last() =~= vs.subrange(0, i as int));
        if ts[i].category == wanted {
            let ghost before = out@.map_values(|t: &Transaction| t@);
            out.push(&ts[i]);
            assert(out@.map_values(|t: &Transaction| t@) =~= before.push(vs[i as int]));
        }
        i = i + 1;
    }
    assert(vs.subrange(0, i as int) =~= vs);
    out
}

pub proof fn in_category_len(ts: Seq<TransactionView>, name: Seq<char>)
    ensures
        in_category(ts, name).len() <= ts.len(),
    decreases ts.len(),
{
    if ts.len() > 0 {
        in_category_len(ts.drop_last(), name);
    }
}

fn contains_name(names: &Vec<String>, name: &String) -> (r: bool)
    ensures
        r == texts(names@).contains(name@),
{
    let mut j: usize = 0;
    while j < names.len()
        invariant
            j <= names@.len(),
            forall|q: int| 0 <= q < j ==> texts(names@)[q] != name@,
        decreases names.len() - j,
    {
        if names[j] == *name {
            assert(texts(names@)[j as int] == name@);
            return true;
        }
        j = j + 1;
    }
    false
}

/// Adds to `names` the categories of `ts` not seen yet, which stand at `off` in `all`.
fn add_names(
    ts: &Vec<Transaction>,
    names: &mut Vec<String>,
    Ghost(all): Ghost<Seq<Seq<char>>>,
    Ghost(off): Ghost<int>,
)
    requires
        0 <= off,
        off + ts@.len() <= all.len(),
        all.subrange(off, off + ts@.len()) == category_names(views(ts@)),
        texts(old(names)@) == first_seen(all.subrange(0, off)),
    ensures
        texts(final(names)@) == first_seen(all.subrange(0, off + ts@.len())),
{
    let mut i: usize = 0;
    while i < ts.len()
        invariant
            0 <= off,
            off + ts@.len() <= all.len(),
            all.subrange(off, off + ts@.len()) == category_names(views(ts@)),
            i <= ts@.len(),
            texts(names@) == first_seen(all.subrange(0, off + i)),
        decreases ts.len() - i,
    {
        let ghost pre = all.subrange(0, off + i + 1);
        assert(pre.drop_last() =~= all.subrange(0, off + i));
        assert(pre.last() == all.subrange(off, off + ts@.len())[i as int]);
        if !contains_name(names, &ts[i].category) {
            let ghost before = texts(names@);
            names.push(ts[i].category.clone());
            assert(texts(names@) =~= before.push(pre.last()));
        }
        i = i + 1;
    }
}

/// The members of a category sum to no more than the whole.
pub proof fn lemma_in_category_sum(ts: Seq<TransactionView>, name: Seq<char>)
    requires
        forall|j: int| 0 <= j < ts.len() ==> #[trigger] ts[j].hundredths >= 0,
    ensures
        0 <= sum_amounts(in_category(ts, name)) <= sum_amounts(ts),
    decreases ts.len(),
{
    if ts.len() > 0 {
        let d = ts.drop_last();
        assert forall|j: int| 0 <= j < d.len() implies #[trigger] d[j].hundredths >= 0 by {
            assert(d[j] == ts[j]);
        }
        lemma_in_category_sum(d, name);
        if ts.last().category == name {
            assert(in_category(ts, name).drop_last() =~= in_category(d, name));
        }
    }
}

/// The number and the summed amount of the members of `ts` in category `name`.
fn tally(ts: &Vec<Transaction>, name: &String) -> (r: (usize, u128))
    requires
        sum_amounts(views(ts@)) <= u128::MAX,
    ensures
        r.0 == in_category(views(ts@), name@).len(),
        r.1 == sum_amounts(in_category(views(ts@), name@)),
{
    let ghost vs = views(ts@);
    let mut count: usize = 0;
    let mut sum: u128 = 0;
    let mut i: usize = 0;
    while i < ts.len()
        invariant
            vs == views(ts@),
            sum_amounts(vs) <= u128::MAX,
            i <= ts@.len(),
            count <= i,
            count == in_category(vs.subrange(0, i as int), name@).len(),
            sum == sum_amounts(in_category(vs.subrange(0, i as int), name@)),
        decreases ts.len() - i,
    {
        let ghost next = vs.subrange(0, i + 1);
        assert(next.drop_last() =~= vs.subrange(0, i as int));
        if ts[i].category == *name {
            let ghost prev = in_category(vs.subrange(0, i as int), name@);
            assert(vs[i as int] == ts@[i as int]@);
            assert(prev.push(vs[i as int]).drop_last() =~= prev);
            proof {
                assert forall|j: int| 0 <= j < next.len() implies #[trigger] next[j].hundredths
                    >= 0 by {
                    assert(next[j] == vs[j]);
                }
                assert forall|j: int| 0 <= j < vs.len() implies #[trigger] vs[j].hundredths
                    >= 0 by {
                    assert(vs[j] == ts@[j]@);
                }
                lemma_in_category_sum(next, name@);
                lemma_sum_prefix(vs, i + 1);
            }
            let a = ts[i].amount.hundredths;
            sum = sum + a;
            count = count + 1;
        }
        i = i + 1;
    }
    assert(vs.subrange(0, i as int) =~= vs);
    (count, sum)
}

/// The roll-up of category `name` over `credits` and `debits`.
fn overview_entry_for(credits: &Vec<Transaction>, debits: &Vec<Transaction>, name: &String) -> (r:
    CategoryOverview)
    requires
        credits@.len() + debits@.len() <= u64::MAX,
        sum_amounts(views(credits@)) <= u128::MAX,
        sum_amounts(views(debits@)) <= u128::MAX,
    ensures
        r@ == overview_entry(views(credits@), views(debits@), name@),
{
    let (cc, csum) = tally(credits, name);
    let (dc, dsum) = tally(debits, name);
    proof {
        in_category_len(views(credits@), name@);
        in_category_len(views(debits@), name@);
    }
    CategoryOverview { name: name.clone(), count: cc as u64 + dc as u64, credits: csum, debits: dsum }
}

impl Statement {
    /// Whether the credits and the debits each sum exactly to the declared totals.
    pub fn validate(&self) -> (r: bool)
        ensures
            r == reconciles(
                views(self.credits@),
                views(self.debits@),
                self.total_credits.hundredths as int,
                self.total_debits.hundredths as int,
            ),
    {
        let credits_ok = match total_of(&self.credits) {
            Some(v) => v == self.total_credits.hundredths,
            None => false,
        };
        let debits_ok = match total_of(&self.debits) {
            Some(v) => v == self.total_debits.hundredths,
            None => false,
        };
        credits_ok && debits_ok
    }

    /// The credits in category `name`, in document order.
    pub fn get_credits_for_category(&self, name: &str) -> (r: Vec<&Transaction>)
        ensures
            r@.map_values(|t: &Transaction| t@) == in_category(views(self.credits@), name@),
    {
        members_in(&self.credits, name)
    }

    /// The debits in category `name`, in document order.
    pub fn get_debits_for_category(&self, name: &str) -> (r: Vec<&Transaction>)
        ensures
            r@.map_values(|t: &Transaction| t@) == in_category(views(self.debits@), name@),
    {
        members_in(&self.debits, name)
    }
    /// Recomputes the per-category roll-up from the credits and the debits.
    pub fn calculate_category_overview(&mut self) -> (r: &Vec<CategoryOverview>)
        requires
            old(self).credits@.len() + old(self).debits@.len() <= u64::MAX,
            sum_amounts(views(old(self).credits@)) <= u128::MAX,
            sum_amounts(views(old(self).debits@)) <= u128::MAX,
        ensures
            r@ == final(self).categories@,
            final(self).categories@.map_values(|c: CategoryOverview| c@) == overview_of(
                views(old(self).credits@),
                views(old(self).debits@),
            ),
            final(self).credits@ == old(self).credits@,
            final(self).debits@ == old(self).debits@,
            final(self).total_credits == old(self).total_credits,
            final(self).total_debits == old(self).total_debits,
    {
        let ghost cs = category_names(views(self.credits@));
        let ghost ds = category_names(views(self.debits@));
        let ghost all = cs + ds;
        let mut names: Vec<String> = Vec::new();
        assert(all.subrange(0, 0) =~= Seq::<Seq<char>>::empty());
        assert(texts(names@) =~= Seq::<Seq<char>>::empty());
        assert(all.subrange(0, cs.len() as int) =~= cs);
        add_names(&self.credits, &mut names, Ghost(all), Ghost(0));
        assert(all.subrange(cs.len() as int, (cs.len() + ds.len()) as int) =~= ds);
        add_names(&self.debits, &mut names, Ghost(all), Ghost(cs.len() as int));
        assert(all.subrange(0, (cs.len() + ds.len()) as int) =~= all);
        let ghost target = overview_of(views(self.credits@), views(self.debits@));
        let mut out: Vec<CategoryOverview> = Vec::new();
        let mut j: usize = 0;
        while j < names.len()
            invariant
                self.credits@.len() + self.debits@.len() <= u64::MAX,
                sum_amounts(views(self.credits@)) <= u128::MAX,
                sum_amounts(views(self.debits@)) <= u128::MAX,
                texts(names@) == first_seen(all),
                all == category_names(views(self.credits@)) + category_names(views(self.debits@)),
                target == overview_of(views(self.credits@), views(self.debits@)),
                j <= names@.len(),
                out@.map_values(|c: CategoryOverview| c@) == target.subrange(0, j as int),
            decreases names.len() - j,
        {
            let entry = overview_entry_for(&self.credits, &self.debits, &names[j]);
            let ghost before = out@.map_values(|c: CategoryOverview| c@);
            assert(texts(names@).len() == names@.len());
            assert(target.len() == names@.len());
            let ghost ev = entry@;
            out.push(entry);
            assert(out@.map_values(|c: CategoryOverview| c@) =~= before.push(ev));
            assert(texts(names@)[j as int] == names@[j as int]@);
            assert(target[j as int] == overview_entry(
                views(self.credits@),
                views(self.debits@),
                names@[j as int]@,
            ));
            assert(out@.map_values(|c: CategoryOverview| c@) =~= target.subrange(0, j + 1));
            j = j + 1;
        }
        assert(target.subrange(0, j as int) =~= target);
        self.categories = out;
        &self.categories
    }
}

} // verus!
