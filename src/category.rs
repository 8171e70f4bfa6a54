//! Spending categories: named sets of patterns matched against transaction details.
use vstd::prelude::*;
use vstd::string::StrSliceExecFns;

verus! {

/// A spending category: a name and the patterns that select its transactions.
#[derive(Debug)]
pub struct Category {
    pub name: String,
    pub patterns: Vec<String>,
}

/// The mathematical content of a [`Category`].
pub struct CategoryView {
    pub name: Seq<char>,
    pub patterns: Seq<Seq<char>>,
}

impl View for Category {
    type V = CategoryView;

    open spec fn view(&self) -> CategoryView {
        CategoryView { name: self.name@, patterns: self.patterns@.map_values(|p: String| p@) }
    }
}

/// The name given to a transaction that no category matches.
pub const UNKNOWN_CATEGORY: &'static str = "Unknown";

/// The characters of [`UNKNOWN_CATEGORY`].
pub open spec fn unknown_category() -> Seq<char> {
    seq!['U', 'n', 'k', 'n', 'o', 'w', 'n']
}

/// What `str::to_lowercase` gives for a string.
pub uninterp spec fn lower_of(s: Seq<char>) -> Seq<char>;

/// All characters of `s` are ASCII.
pub open spec fn is_ascii_text(s: Seq<char>) -> bool {
    forall|i: int| 0 <= i < s.len() ==> (#[trigger] s[i] as u32) < 128
}

/// The ASCII lowercase of `c`: `A` to `Z` become `a` to `z`, and every other
/// character stays as it is.
pub open spec fn ascii_lower_is(c: char, l: char) -> bool {
    if 'A' <= c && c <= 'Z' {
        l as u32 == c as u32 + 32
    } else {
        l == c
    }
}

/// Relies on `str::to_lowercase`: the result depends on the characters alone, and
/// on ASCII text it maps `A` to `Z` to `a` to `z` and keeps every other character.
#[verifier::external_body]
fn lowercase(s: &str) -> (r: String)
    ensures
        r@ == lower_of(s@),
        is_ascii_text(s@) ==> r@.len() == s@.len() && forall|i: int|
            0 <= i < s@.len() ==> ascii_lower_is(s@[i], #[trigger] r@[i]),
{
    s.to_lowercase()
}

/// `needle` occurs in `haystack` as a contiguous run of characters.
pub open spec fn is_substring(needle: Seq<char>, haystack: Seq<char>) -> bool {
    exists|k: int|
        0 <= k && k + needle.len() <= haystack.len() && #[trigger] haystack.subrange(
            k,
            k + needle.len(),
        ) == needle
}

/// The texts of a sequence of strings.
pub open spec fn texts(ss: Seq<String>) -> Seq<Seq<char>> {
    ss.map_values(|s: String| s@)
}

/// Some text of `needles` occurs in `haystack`.
pub open spec fn any_occurs(needles: Seq<Seq<char>>, haystack: Seq<char>) -> bool {
    exists|i: int| 0 <= i < needles.len() && is_substring(#[trigger] needles[i], haystack)
}

/// Each of `patterns`, lowercased.
pub open spec fn folded(patterns: Seq<Seq<char>>) -> Seq<Seq<char>> {
    patterns.map_values(|p: Seq<char>| lower_of(p))
}

/// Some pattern of `patterns`, lowercased, occurs in `folded_input`.
pub open spec fn matches_any(patterns: Seq<Seq<char>>, folded_input: Seq<char>) -> bool {
    any_occurs(folded(patterns), folded_input)
}

/// The name of the first category, in order from `i`, one of whose lowercased
/// patterns (`patterns[i]`) occurs in `input`; the unknown category where none does.
pub open spec fn first_match_from(
    names: Seq<Seq<char>>,
    patterns: Seq<Seq<Seq<char>>>,
    input: Seq<char>,
    i: int,
) -> Seq<char>
    decreases names.len() - i,
{
    if i < 0 || i >= names.len() || i >= patterns.len() {
        unknown_category()
    } else if any_occurs(patterns[i], input) {
        names[i]
    } else {
        first_match_from(names, patterns, input, i + 1)
    }
}

/// The category of a transaction with `details`: the first of `cats` that matches.
pub open spec fn category_for(cats: Seq<CategoryView>, details: Seq<char>) -> Seq<char> {
    first_match_from(
        cats.map_values(|c: CategoryView| c.name),
        cats.map_values(|c: CategoryView| folded(c.patterns)),
        lower_of(details),
        0,
    )
}

/// A category store in which no category has a pattern puts every transaction in
/// the unknown category.
pub proof fn lemma_patternless_store_is_unknown(cats: Seq<CategoryView>, details: Seq<char>)
    requires
        forall|i: int| 0 <= i < cats.len() ==> (#[trigger] cats[i]).patterns.len() == 0,
    ensures
        category_for(cats, details) == unknown_category(),
{
    lemma_patternless_from(
        cats.map_values(|c: CategoryView| c.name),
        cats.map_values(|c: CategoryView| folded(c.patterns)),
        lower_of(details),
        0,
    );
}

proof fn lemma_patternless_from(
    names: Seq<Seq<char>>,
    patterns: Seq<Seq<Seq<char>>>,
    input: Seq<char>,
    i: int,
)
    requires
        0 <= i,
        forall|j: int| 0 <= j < patterns.len() ==> (#[trigger] patterns[j]).len() == 0,
    ensures
        first_match_from(names, patterns, input, i) == unknown_category(),
    decreases names.len() - i,
{
    if i < names.len() && i < patterns.len() {
        assert(patterns[i].len() == 0);
        lemma_patternless_from(names, patterns, input, i + 1);
    }
}

fn chars_of(s: &str) -> (r: Vec<char>)
    ensures
        r@ == s@,
{
    let n = s.unicode_len();
    let mut out: Vec<char> = Vec::new();
    let mut i: usize = 0;
    while i < n
        invariant
            n == s@.len(),
            i <= n,
            out@ == s@.subrange(0, i as int),
        decreases n - i,
    {
        out.push(s.get_char(i));
        i = i + 1;
        assert(out@ =~= s@.subrange(0, i as int));
    }
    assert(out@ =~= s@);
    out
}

/// Whether `needle` occurs in `haystack` as a contiguous run of characters.
pub fn contains_text(haystack: &str, needle: &str) -> (r: bool)
    ensures
        r == is_substring(needle@, haystack@),
{
    let h = chars_of(haystack);
    let n = chars_of(needle);
    if n.len() == 0 {
        assert(haystack@.subrange(0int, 0int + needle@.len()) =~= needle@);
        return true;
    }
    if n.len() > h.len() {
        return false;
    }
    let hl = h.len();
    let mut k: usize = 0;
    while k <= h.len() - n.len()
        invariant
            hl == h@.len(),
            n@.len() >= 1,
            h@ == haystack@,
            n@ == needle@,
            n@.len() <= h@.len(),
            forall|j: int| 0 <= j < k ==> #[trigger] h@.subrange(j, j + n@.len()) != n@,
        decreases h.len() - n.len() + 1 - k,
    {
        let mut m: usize = 0;
        let mut same = true;
        while m < n.len()
            invariant
                hl == h@.len(),
                h@ == haystack@,
                n@ == needle@,
                k + n@.len() <= h@.len(),
                m <= n@.len(),
                same ==> forall|q: int| 0 <= q < m ==> h@[k + q] == n@[q],
                !same ==> h@.subrange(k as int, k + n@.len()) != n@,
            decreases n.len() - m,
        {
            if same && h[k + m] != n[m] {
                assert(h@.subrange(k as int, k + n@.len())[m as int] != n@[m as int]);
                same = false;
            }
            m = m + 1;
        }
        if same {
            assert(h@.subrange(k as int, k + n@.len()) =~= n@);
            return true;
        }
        k = k + 1;
    }
    assert forall|j: int| 0 <= j && j + needle@.len() <= haystack@.len() implies #[trigger] haystack@.subrange(
        j,
        j + needle@.len(),
    ) != needle@ by {
        assert(j < k);
    }
    false
}

/// Whether some text of `folded_patterns` occurs in `folded_input`. Both are
/// taken as already lowercased.
pub fn any_pattern_occurs(folded_patterns: &Vec<String>, folded_input: &str) -> (r: bool)
    ensures
        r == any_occurs(texts(folded_patterns@), folded_input@),
{
    let mut i: usize = 0;
    while i < folded_patterns.len()
        invariant
            i <= folded_patterns@.len(),
            forall|j: int|
                0 <= j < i ==> !is_substring(#[trigger] texts(folded_patterns@)[j], folded_input@),
        decreases folded_patterns.len() - i,
    {
        if contains_text(folded_input, folded_patterns[i].as_str()) {
            assert(texts(folded_patterns@)[i as int] == folded_patterns@[i as int]@);
            return true;
        }
        i = i + 1;
    }
    false
}

/// The name of the first category whose lowercased patterns (`folded_patterns`,
/// one list for each of `names`) have one that occurs in `folded_details`; `Unknown`
/// where none has.
pub fn first_matching_category(
    names: &Vec<String>,
    folded_patterns: &Vec<Vec<String>>,
    folded_details: &str,
) -> (r: String)
    ensures
        r@ == first_match_from(
            texts(names@),
            folded_patterns@.map_values(|ps: Vec<String>| texts(ps@)),
            folded_details@,
            0,
        ),
{
    let ghost ns = texts(names@);
    let ghost pv = folded_patterns@.map_values(|ps: Vec<String>| texts(ps@));
    let mut i: usize = 0;
    while i < names.len() && i < folded_patterns.len()
        invariant
            ns == texts(names@),
            pv == folded_patterns@.map_values(|ps: Vec<String>| texts(ps@)),
            i <= names@.len(),
            first_match_from(ns, pv, folded_details@, 0) == first_match_from(
                ns,
                pv,
                folded_details@,
                i as int,
            ),
        decreases names.len() - i,
    {
        if any_pattern_occurs(&folded_patterns[i], folded_details) {
            return names[i].clone();
        }
        i = i + 1;
    }
    proof {
        reveal_strlit("Unknown");
    }
    let r = UNKNOWN_CATEGORY.to_owned();
    assert(r@ =~= unknown_category());
    r
}

/// Each of `patterns`, lowercased.
fn lowercase_all(patterns: &Vec<String>) -> (r: Vec<String>)
    ensures
        texts(r@) == folded(texts(patterns@)),
{
    let mut out: Vec<String> = Vec::new();
    let mut i: usize = 0;
    while i < patterns.len()
        invariant
            i <= patterns@.len(),
            texts(out@) == folded(texts(patterns@)).subrange(0, i as int),
        decreases patterns.len() - i,
    {
        let p = lowercase(patterns[i].as_str());
        let ghost before = texts(out@);
        let ghost pv = p@;
        assert(folded(texts(patterns@))[i as int] == pv);
        out.push(p);
        assert(texts(out@) =~= before.push(pv));
        i = i + 1;
        assert(texts(out@) =~= folded(texts(patterns@)).subrange(0, i as int));
    }
    assert(folded(texts(patterns@)).subrange(0, i as int) =~= folded(texts(patterns@)));
    out
}

impl Category {
    /// Whether some pattern of this category occurs in `input`, ignoring case.
    pub fn is_match(&self, input: &str) -> (r: bool)
        ensures
            r == matches_any(self@.patterns, lower_of(input@)),
    {
        let folded_input = lowercase(input);
        let folded_patterns = lowercase_all(&self.patterns);
        assert(texts(self.patterns@) =~= self@.patterns);
        any_pattern_occurs(&folded_patterns, folded_input.as_str())
    }
}

/// The category of a transaction with `details`: the name of the first category
/// that matches it, or `Unknown` where none does.
pub fn categorize(categories: &Vec<Category>, details: &str) -> (r: String)
    ensures
        r@ == category_for(categories@.map_values(|c: Category| c@), details@),
{
    let ghost cats = categories@.map_values(|c: Category| c@);
    let mut names: Vec<String> = Vec::new();
    let mut table: Vec<Vec<String>> = Vec::new();
    let mut i: usize = 0;
    while i < categories.len()
        invariant
            cats == categories@.map_values(|c: Category| c@),
            i <= categories@.len(),
            texts(names@) == cats.map_values(|c: CategoryView| c.name).subrange(0, i as int),
            table@.map_values(|ps: Vec<String>| texts(ps@)) == cats.map_values(
                |c: CategoryView| folded(c.patterns),
            ).subrange(0, i as int),
        decreases categories.len() - i,
    {
        let ghost nbefore = texts(names@);
        let ghost tbefore = table@.map_values(|ps: Vec<String>| texts(ps@));
        let name = categories[i].name.clone();
        let ghost nv = name@;
        assert(nv == cats.map_values(|c: CategoryView| c.name)[i as int]);
        names.push(name);
        assert(texts(names@) =~= nbefore.push(nv));
        let row = lowercase_all(&categories[i].patterns);
        assert(texts(categories@[i as int].patterns@) =~= cats[i as int].patterns);
        let ghost rv = texts(row@);
        assert(rv == cats.map_values(|c: CategoryView| folded(c.patterns))[i as int]);
        table.push(row);
        assert(table@.map_values(|ps: Vec<String>| texts(ps@)) =~= tbefore.push(rv));
        i = i + 1;
        assert(texts(names@) =~= cats.map_values(|c: CategoryView| c.name).subrange(0, i as int));
        assert(table@.map_values(|ps: Vec<String>| texts(ps@)) =~= cats.map_values(
            |c: CategoryView| folded(c.patterns),
        ).subrange(0, i as int));
    }
    assert(cats.map_values(|c: CategoryView| c.name).subrange(0, i as int) =~= cats.map_values(
        |c: CategoryView| c.name,
    ));
    assert(cats.map_values(|c: CategoryView| folded(c.patterns)).subrange(0, i as int)
        =~= cats.map_values(|c: CategoryView| folded(c.patterns)));
    let folded_details = lowercase(details);
    first_matching_category(&names, &table, folded_details.as_str())
}

} // verus!
