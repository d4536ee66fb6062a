//! The index of example programs: which GPUI types and methods each uses,
//! and ranking examples for a set of symbols.

use vstd::prelude::*;

use crate::api_index::{dedup_views, StrKey, INDEX_SCHEMA_VERSION};
use crate::paths::{file_stem_of, join_of, path_file_stem, path_join};
use crate::sort::{sort_ranked, sorted, Ranked};
use crate::text::{
    chars_eq, chars_of, contains_chars, eq_ignore_ascii, eq_ignore_ascii_case_chars, has_infix,
    has_suffix, lex_le, lex_le_exec, lower_chars, lowercase, push_chars, push_str_chars,
    string_of, upper_case,
};

verus! {

/// One example source file.
#[derive(Clone, Debug)]
pub struct ExampleEntry {
    pub source: String,
    pub path: String,
    pub title: String,
    pub types_used: Vec<String>,
    pub methods_used: Vec<String>,
    pub loc: usize,
    pub has_main: bool,
}

/// All example entries.
#[derive(Clone, Debug)]
pub struct ExampleIndex {
    pub schema_version: u32,
    pub built_at: String,
    pub entries: Vec<ExampleEntry>,
}

impl ExampleIndex {
    /// An index with no entries, of the current schema.
    pub fn empty() -> (r: ExampleIndex)
        ensures
            r.schema_version == INDEX_SCHEMA_VERSION,
            r.built_at@ == Seq::<char>::empty(),
            r.entries@.len() == 0,
    {
        ExampleIndex { schema_version: INDEX_SCHEMA_VERSION, built_at: String::new(), entries: Vec::new() }
    }
}

/// Where the example index is stored under the cache directory.
pub fn index_path(cache: &str) -> (r: String)
    ensures
        r@ == join_of(join_of(cache@, "index"@), "example_index.json"@),
{
    let dir = path_join(cache, "index");
    path_join(dir.as_str(), "example_index.json")
}

/// The loaded index, or the empty one when loading failed.
pub fn load_or_empty<E>(loaded: Result<ExampleIndex, E>) -> (r: ExampleIndex)
    ensures
        match loaded {
            Ok(i) => r == i,
            Err(_) => r.schema_version == INDEX_SCHEMA_VERSION && r.entries@.len() == 0 && r.built_at@.len() == 0,
        },
{
    match loaded {
        Ok(i) => i,
        Err(_) => ExampleIndex::empty(),
    }
}

// ---------------------------------------------------------------------------
// Ranking.
// ---------------------------------------------------------------------------
/// Some string in `v` has these characters.
pub open spec fn lists(v: Seq<String>, q: Seq<char>) -> bool {
    exists|i: int| 0 <= i < v.len() && (#[trigger] v[i])@ == q
}

/// The example uses the symbol (as a type or method), or names it in its
/// path or title.
pub open spec fn mentions(e: ExampleEntry, q: Seq<char>) -> bool {
    lists(e.types_used@, q) || lists(e.methods_used@, q) || has_infix(e.path@, q) || has_infix(e.title@, q)
}

/// Score of one symbol for an example: 0 when not mentioned; else 100 for a
/// use (40 for a path or title mention only), plus 30 for a program with
/// `main` (10 otherwise), minus 25 for a file over 300 lines.
pub open spec fn score_one_spec(e: ExampleEntry, q: Seq<char>) -> int {
    if !mentions(e, q) {
        0
    } else {
        (if lists(e.types_used@, q) || lists(e.methods_used@, q) { 100int } else { 40int })
            + (if e.has_main { 30int } else { 10int }) - (if e.loc > 300 { 25int } else { 0int })
    }
}

/// A symbol scores above zero for an example exactly when the example
/// mentions it, and then between 25 and 130.
pub proof fn law_score_one_positive_iff_mentioned(e: ExampleEntry, q: Seq<char>)
    ensures
        score_one_spec(e, q) > 0 <==> mentions(e, q),
        mentions(e, q) ==> 25 <= score_one_spec(e, q) <= 130,
        !mentions(e, q) ==> score_one_spec(e, q) == 0,
{
}

/// Sum of the symbol scores.
pub open spec fn score_sum(e: ExampleEntry, syms: Seq<String>) -> int
    decreases syms.len(),
{
    if syms.len() == 0 {
        0
    } else {
        score_sum(e, syms.drop_last()) + score_one_spec(e, syms.last()@)
    }
}

/// Every symbol is mentioned.
pub open spec fn mentions_all(e: ExampleEntry, syms: Seq<String>) -> bool {
    forall|i: int| 0 <= i < syms.len() ==> mentions(e, (#[trigger] syms[i])@)
}

/// Score of an example for several symbols: the sum, plus 200 when there are
/// several symbols and it mentions them all.
pub open spec fn example_score(e: ExampleEntry, syms: Seq<String>) -> int {
    score_sum(e, syms) + (if syms.len() > 1 && mentions_all(e, syms) { 200int } else { 0int })
}

/// A scored example: score, path, index.
pub struct ExampleHit {
    pub score: i32,
    pub path: String,
    pub idx: usize,
}

impl Ranked for ExampleHit {
    /// Higher score first; by path among equal scores.
    open spec fn ranks_le(&self, other: &Self) -> bool {
        self.score > other.score || (self.score == other.score && lex_le(self.path@, other.path@))
    }

    fn le(&self, other: &Self) -> (r: bool) {
        self.score > other.score || (self.score == other.score && lex_le_exec(
            &chars_of(self.path.as_str()),
            &chars_of(other.path.as_str()),
        ))
    }
}

/// The examples with a positive score, in index order.
pub open spec fn example_candidates(es: Seq<ExampleEntry>, syms: Seq<String>) -> Seq<ExampleHit>
    decreases es.len(),
{
    if es.len() == 0 {
        seq![]
    } else {
        let p = example_candidates(es.drop_last(), syms);
        let e = es.last();
        if example_score(e, syms) > 0 {
            p.push(ExampleHit { score: example_score(e, syms) as i32, path: e.path, idx: (es.len() - 1) as usize })
        } else {
            p
        }
    }
}

/// What `find_examples_multi` returns, as hits.
pub open spec fn example_hits(es: Seq<ExampleEntry>, syms: Seq<String>, limit: nat) -> Seq<ExampleHit> {
    if syms.len() == 0 || limit == 0 {
        seq![]
    } else {
        crate::api_index::take_at_most(sorted(example_candidates(es, syms)), limit)
    }
}

/// Whether some string in `v` has the characters of `q`.
fn lists_exec(v: &Vec<String>, q: &Vec<char>) -> (r: bool)
    ensures
        r == lists(v@, q@),
{
    let mut i: usize = 0;
    while i < v.len()
        invariant
            i <= v@.len(),
            forall|k: int| 0 <= k < i ==> (#[trigger] v@[k])@ != q@,
        decreases v@.len() - i,
    {
        if chars_eq(&chars_of(v[i].as_str()), q) {
            return true;
        }
        i += 1;
    }
    false
}

/// Score of one symbol for an example, and whether it is mentioned.
fn score_one(e: &ExampleEntry, q: &Vec<char>) -> (r: (i32, bool))
    ensures
        r.1 == mentions(*e, q@),
        r.0 == score_one_spec(*e, q@),
{
    let in_types = lists_exec(&e.types_used, q);
    let in_methods = lists_exec(&e.methods_used, q);
    let in_path = contains_chars(&chars_of(e.path.as_str()), q) || contains_chars(&chars_of(e.title.as_str()), q);
    if !in_types && !in_methods && !in_path {
        return (0, false);
    }
    let mut score: i32 = 0;
    if in_methods || in_types {
        score += 100;
    } else if in_path {
        score += 40;
    }
    if e.has_main {
        score += 30;
    } else {
        score += 10;
    }
    if e.loc > 300 {
        score -= 25;
    }
    (score, true)
}

proof fn lemma_score_sum_bound(e: ExampleEntry, syms: Seq<String>)
    ensures
        -25 * syms.len() <= score_sum(e, syms) <= 130 * syms.len(),
    decreases syms.len(),
{
    if syms.len() > 0 {
        lemma_score_sum_bound(e, syms.drop_last());
    }
}

/// Score of an example for the symbols.
fn example_score_exec(e: &ExampleEntry, syms: &Vec<String>) -> (r: i32)
    requires
        syms@.len() * 130 + 200 <= i32::MAX,
    ensures
        r == example_score(*e, syms@),
{
    let mut score: i32 = 0;
    let mut all = true;
    let mut i: usize = 0;
    while i < syms.len()
        invariant
            i <= syms@.len(),
            syms@.len() * 130 + 200 <= i32::MAX,
            score == score_sum(*e, syms@.take(i as int)),
            all == mentions_all(*e, syms@.take(i as int)),
        decreases syms@.len() - i,
    {
        let (s, present) = score_one(e, &chars_of(syms[i].as_str()));
        proof {
            assert(syms@.take(i + 1).drop_last() =~= syms@.take(i as int));
            assert(syms@.take(i + 1).last() == syms@[i as int]);
            lemma_score_sum_bound(*e, syms@.take(i as int));
            assert(mentions_all(*e, syms@.take(i + 1)) == (mentions_all(*e, syms@.take(i as int)) && mentions(*e, syms@[i as int]@))) by {
                if mentions_all(*e, syms@.take(i as int)) && mentions(*e, syms@[i as int]@) {
                    assert forall|k: int| 0 <= k < i + 1 implies mentions(*e, (#[trigger] syms@.take(i + 1)[k])@) by {
                        if k < i {
                            assert(syms@.take(i + 1)[k] == syms@.take(i as int)[k]);
                        }
                    }
                }
                if mentions_all(*e, syms@.take(i + 1)) {
                    assert(syms@.take(i + 1)[i as int] == syms@[i as int]);
                    assert forall|k: int| 0 <= k < i implies mentions(*e, (#[trigger] syms@.take(i as int)[k])@) by {
                        assert(syms@.take(i + 1)[k] == syms@.take(i as int)[k]);
                    }
                }
            }
        }
        score = score + s;
        if !present {
            all = false;
        }
        i += 1;
    }
    assert(syms@.take(syms@.len() as int) =~= syms@);
    proof {
        lemma_score_sum_bound(*e, syms@);
    }
    if syms.len() > 1 && all {
        score = score + 200;
    }
    score
}

proof fn lemma_example_candidates_idx(es: Seq<ExampleEntry>, syms: Seq<String>, k: int)
    requires
        0 <= k < example_candidates(es, syms).len(),
    ensures
        example_candidates(es, syms)[k].idx < es.len(),
    decreases es.len(),
{
    if es.len() > 0 {
        if k < example_candidates(es.drop_last(), syms).len() {
            lemma_example_candidates_idx(es.drop_last(), syms, k);
        }
    }
}

/// Examples are ranked by a total preorder.
pub proof fn lemma_example_hit_order()
    ensures
        crate::sort::total_preorder::<ExampleHit>(),
{
    assert forall|a: ExampleHit, b: ExampleHit| #[trigger] a.ranks_le(&b) || b.ranks_le(&a) by {
        crate::text::lemma_lex_total(a.path@, b.path@);
    }
    assert forall|a: ExampleHit, b: ExampleHit, c: ExampleHit| #[trigger] a.ranks_le(&b) && #[trigger] b.ranks_le(&c)
        implies a.ranks_le(&c) by {
        if a.score == b.score && b.score == c.score {
            crate::text::lemma_lex_trans(a.path@, b.path@, c.path@);
        }
    }
}

proof fn lemma_example_candidates_ok(es: Seq<ExampleEntry>, syms: Seq<String>, k: int)
    requires
        0 <= k < example_candidates(es, syms).len(),
        es.len() <= usize::MAX,
    ensures
        ({
            let h = example_candidates(es, syms)[k];
            &&& h.idx < es.len()
            &&& h.path == es[h.idx as int].path
            &&& example_score(es[h.idx as int], syms) > 0
        }),
    decreases es.len(),
{
    if es.len() > 0 {
        let prev = example_candidates(es.drop_last(), syms);
        if k < prev.len() {
            lemma_example_candidates_ok(es.drop_last(), syms, k);
            assert(es.drop_last()[prev[k].idx as int] == es[prev[k].idx as int]);
        }
    }
}

/// Examples for symbols come best first: scores never increase along the
/// answer, and among equal scores paths ascend; there are at most `limit`,
/// each with a positive score.
pub proof fn law_examples_best_first(es: Seq<ExampleEntry>, syms: Seq<String>, limit: nat)
    requires
        es.len() <= usize::MAX,
    ensures
        ({
            let h = example_hits(es, syms, limit);
            &&& h.len() <= limit
            &&& forall|i: int, j: int| #![trigger h[i], h[j]]
                0 <= i < j < h.len() ==> h[i].score > h[j].score || (h[i].score == h[j].score && lex_le(
                    h[i].path@,
                    h[j].path@,
                ))
            &&& forall|k: int|
                0 <= k < h.len() ==> (#[trigger] h[k]).idx < es.len() && h[k].path == es[h[k].idx as int].path
                    && example_score(es[h[k].idx as int], syms) > 0
        }),
{
    if syms.len() > 0 && limit > 0 {
        let c = example_candidates(es, syms);
        lemma_example_hit_order();
        crate::sort::lemma_sorted_ordered(c);
        let ok = |x: ExampleHit| x.idx < es.len() && x.path == es[x.idx as int].path && example_score(es[x.idx as int], syms) > 0;
        assert forall|k: int| 0 <= k < c.len() implies ok(#[trigger] c[k]) by {
            lemma_example_candidates_ok(es, syms, k);
        }
        crate::sort::lemma_sorted_all(c, ok);
        let s = sorted(c);
        if limit < s.len() {
            crate::sort::lemma_ordered_take(s, limit as int);
            assert forall|k: int| 0 <= k < s.take(limit as int).len() implies ok(#[trigger] s.take(limit as int)[k]) by {
                assert(s.take(limit as int)[k] == s[k]);
            }
        }
    }
}

proof fn lemma_example_candidates_hold(es: Seq<ExampleEntry>, syms: Seq<String>, n: int)
    requires
        0 <= n < es.len(),
        es.len() <= usize::MAX,
        example_score(es[n], syms) > 0,
    ensures
        exists|k: int|
            0 <= k < example_candidates(es, syms).len() && #[trigger] example_candidates(es, syms)[k] == (ExampleHit {
                score: example_score(es[n], syms) as i32,
                path: es[n].path,
                idx: n as usize,
            }),
    decreases es.len(),
{
    let c = example_candidates(es, syms);
    let x = ExampleHit { score: example_score(es[n], syms) as i32, path: es[n].path, idx: n as usize };
    if n == es.len() - 1 {
        assert(c[c.len() - 1] == x);
    } else {
        assert(es.drop_last()[n] == es[n]);
        lemma_example_candidates_hold(es.drop_last(), syms, n);
        let p = example_candidates(es.drop_last(), syms);
        let k = choose|k: int| 0 <= k < p.len() && #[trigger] p[k] == x;
        assert(c[k] == p[k]);
    }
}

/// Every example that scores above zero for the symbols is answered, unless
/// the answer already holds `limit` examples, each ranked before it (higher
/// score, or the same score and a path not after its own).
pub proof fn law_examples_complete(es: Seq<ExampleEntry>, syms: Seq<String>, limit: nat, n: int)
    requires
        es.len() <= usize::MAX,
        0 <= n < es.len(),
        syms.len() > 0,
        example_score(es[n], syms) > 0,
    ensures
        ({
            let h = example_hits(es, syms, limit);
            let x = ExampleHit { score: example_score(es[n], syms) as i32, path: es[n].path, idx: n as usize };
            (exists|k: int| 0 <= k < h.len() && #[trigger] h[k] == x) || (h.len() == limit && forall|k: int|
                0 <= k < h.len() ==> (#[trigger] h[k]).ranks_le(&x))
        }),
{
    let c = example_candidates(es, syms);
    let s = sorted(c);
    let h = example_hits(es, syms, limit);
    let x = ExampleHit { score: example_score(es[n], syms) as i32, path: es[n].path, idx: n as usize };
    lemma_example_hit_order();
    lemma_example_candidates_hold(es, syms, n);
    let k0 = choose|k: int| 0 <= k < c.len() && #[trigger] c[k] == x;
    crate::sort::lemma_sorted_prefix_complete(c, limit, k0);
    crate::sort::lemma_sorted_all(c, |e: ExampleHit| true);
    if exists|j: int| 0 <= j < s.len() && j < limit && s[j] == c[k0] {
        let j = choose|j: int| 0 <= j < s.len() && j < limit && s[j] == c[k0];
        assert(h[j] == s[j]);
    } else {
        assert forall|k: int| 0 <= k < h.len() implies (#[trigger] h[k]).ranks_le(&x) by {
            assert(h[k] == s[k]);
        }
    }
}

/// Examples that use or name the symbols, best first (by path among equal
/// scores), at most `limit`.
pub fn find_examples_multi<'a>(idx: &'a ExampleIndex, symbols: &Vec<String>, limit: usize) -> (r: Vec<&'a ExampleEntry>)
    requires
        symbols@.len() * 130 + 200 <= i32::MAX,
    ensures
        r@.len() == example_hits(idx.entries@, symbols@, limit as nat).len(),
        forall|k: int| 0 <= k < r@.len() ==> {
            let h = #[trigger] example_hits(idx.entries@, symbols@, limit as nat)[k];
            h.idx < idx.entries@.len() && *r@[k] == idx.entries@[h.idx as int]
        },
{
    if symbols.len() == 0 || limit == 0 {
        return Vec::new();
    }
    let mut cands: Vec<ExampleHit> = Vec::new();
    let mut i: usize = 0;
    while i < idx.entries.len()
        invariant
            i <= idx.entries@.len(),
            symbols@.len() * 130 + 200 <= i32::MAX,
            cands@ == example_candidates(idx.entries@.take(i as int), symbols@),
        decreases idx.entries@.len() - i,
    {
        let e = &idx.entries[i];
        proof {
            assert(idx.entries@.take(i + 1).drop_last() =~= idx.entries@.take(i as int));
            assert(idx.entries@.take(i + 1).last() == *e);
        }
        let score = example_score_exec(e, symbols);
        if score > 0 {
            cands.push(ExampleHit { score, path: e.path.clone(), idx: i });
        }
        i += 1;
    }
    assert(idx.entries@.take(idx.entries@.len() as int) =~= idx.entries@);
    proof {
        assert forall|k: int| 0 <= k < cands@.len() implies (#[trigger] cands@[k]).idx < idx.entries@.len() by {
            lemma_example_candidates_idx(idx.entries@, symbols@, k);
        }
        crate::sort::lemma_sorted_all(cands@, |h: ExampleHit| h.idx < idx.entries@.len());
    }
    let ghost hits = example_hits(idx.entries@, symbols@, limit as nat);
    let mut s = sort_ranked(cands);
    if limit < s.len() {
        s.truncate(limit);
    }
    assert(s@ == hits);
    let mut r: Vec<&'a ExampleEntry> = Vec::new();
    let mut k: usize = 0;
    while k < s.len()
        invariant
            k <= s@.len(),
            s@ == hits,
            forall|j: int| 0 <= j < s@.len() ==> (#[trigger] s@[j]).idx < idx.entries@.len(),
            r@.len() == k,
            forall|j: int| 0 <= j < k ==> *r@[j] == idx.entries@[(#[trigger] hits[j]).idx as int],
        decreases s@.len() - k,
    {
        r.push(&idx.entries[s[k].idx]);
        k += 1;
    }
    r
}

proof fn lemma_score_sum_views(e: ExampleEntry, a: Seq<String>, b: Seq<String>)
    requires
        a.len() == b.len(),
        forall|i: int| 0 <= i < a.len() ==> (#[trigger] a[i])@ == b[i]@,
    ensures
        score_sum(e, a) == score_sum(e, b),
        mentions_all(e, a) == mentions_all(e, b),
    decreases a.len(),
{
    if a.len() > 0 {
        assert forall|i: int| 0 <= i < a.drop_last().len() implies (#[trigger] a.drop_last()[i])@ == b.drop_last()[i]@ by {
            assert(a.drop_last()[i] == a[i] && b.drop_last()[i] == b[i]);
        }
        lemma_score_sum_views(e, a.drop_last(), b.drop_last());
        assert(a.last()@ == b[b.len() - 1]@);
    }
    if mentions_all(e, a) {
        assert forall|i: int| 0 <= i < b.len() implies mentions(e, (#[trigger] b[i])@) by {
            assert(mentions(e, a[i]@));
        }
    }
    if mentions_all(e, b) {
        assert forall|i: int| 0 <= i < a.len() implies mentions(e, (#[trigger] a[i])@) by {
            assert(mentions(e, b[i]@));
        }
    }
}

proof fn lemma_candidates_views(es: Seq<ExampleEntry>, a: Seq<String>, b: Seq<String>)
    requires
        a.len() == b.len(),
        forall|i: int| 0 <= i < a.len() ==> (#[trigger] a[i])@ == b[i]@,
    ensures
        example_candidates(es, a) == example_candidates(es, b),
    decreases es.len(),
{
    if es.len() > 0 {
        lemma_candidates_views(es.drop_last(), a, b);
        lemma_score_sum_views(es.last(), a, b);
    }
}

/// Examples for one symbol: those for the list that holds just the symbol.
pub fn find_examples<'a>(idx: &'a ExampleIndex, symbol: &str, limit: usize) -> (r: Vec<&'a ExampleEntry>)
    ensures
        forall|syms: Seq<String>| #![trigger example_hits(idx.entries@, syms, limit as nat)]
            syms.len() == 1 && syms[0]@ == symbol@ ==> {
                &&& r@.len() == example_hits(idx.entries@, syms, limit as nat).len()
                &&& forall|k: int| 0 <= k < r@.len() ==> {
                    let h = #[trigger] example_hits(idx.entries@, syms, limit as nat)[k];
                    h.idx < idx.entries@.len() && *r@[k] == idx.entries@[h.idx as int]
                }
            },
{
    let mut syms: Vec<String> = Vec::new();
    syms.push(symbol.to_owned());
    let r = find_examples_multi(idx, &syms, limit);
    proof {
        assert forall|other: Seq<String>| other.len() == 1 && other[0]@ == symbol@ implies example_hits(
            idx.entries@,
            other,
            limit as nat,
        ) == example_hits(idx.entries@, syms@, limit as nat) by {
            lemma_candidates_views(idx.entries@, other, syms@);
        }
    }
    r
}


// ---------------------------------------------------------------------------
// Lookup by file.
// ---------------------------------------------------------------------------
/// The example's path, in lowercase, ends with `/name` or `/name.rs`, or its
/// stem equals the name up to ASCII case.
pub open spec fn file_matches(e: ExampleEntry, name: Seq<char>) -> bool {
    let p = lowercase(e.path@);
    let q = lowercase(name);
    ||| (seq!['/'] + q).is_suffix_of(p)
    ||| (seq!['/'] + q + ".rs"@).is_suffix_of(p)
    ||| match file_stem_of(e.path@) {
        Some(st) => eq_ignore_ascii(st, name),
        None => false,
    }
}

/// The test that an example's file is `name` (see `file_matches`).
pub open spec fn file_is(name: Seq<char>) -> spec_fn(ExampleEntry) -> bool {
    |x: ExampleEntry| file_matches(x, name)
}

/// `get_file` answers the first example, in index order, whose file is the
/// name: its lowercase path ends with `/name` or `/name.rs` (name in
/// lowercase), or its file stem is the name up to ASCII case; no example
/// when none is.
pub proof fn law_get_file_first_match(entries: Seq<ExampleEntry>, name: Seq<char>)
    ensures
        match crate::index::first_where(entries, file_is(name)) {
            Some(i) => 0 <= i < entries.len() && file_matches(entries[i], name) && forall|k: int|
                0 <= k < i ==> !file_matches(#[trigger] entries[k], name),
            None => forall|k: int| 0 <= k < entries.len() ==> !file_matches(#[trigger] entries[k], name),
        },
{
    crate::index::lemma_first_where_is(entries, file_is(name));
}

/// The first example whose file is `name`.
pub fn get_file<'a>(idx: &'a ExampleIndex, name: &str) -> (r: Option<&'a ExampleEntry>)
    ensures
        match r {
            Some(e) => exists|i: int| 0 <= i < idx.entries@.len() && *e == idx.entries@[i]
                && crate::index::first_where(idx.entries@, file_is(name@)) == Some(i),
            None => crate::index::first_where(idx.entries@, file_is(name@)) is None,
        },
{
    let ghost pr = file_is(name@);
    let nc = chars_of(name);
    let q = lower_chars(&nc);
    let mut a: Vec<char> = Vec::new();
    a.push('/');
    push_chars(&mut a, &q);
    let mut b: Vec<char> = a.clone();
    push_str_chars(&mut b, ".rs");
    assert(a@ == seq!['/'] + q@);
    let mut i: usize = 0;
    while i < idx.entries.len()
        invariant
            i <= idx.entries@.len(),
            pr == file_is(name@),
            nc@ == name@,
            q@ == lowercase(name@),
            a@ == seq!['/'] + q@,
            b@ == seq!['/'] + q@ + ".rs"@,
            forall|k: int| 0 <= k < i ==> !pr(#[trigger] idx.entries@[k]),
        decreases idx.entries@.len() - i,
    {
        let e = &idx.entries[i];
        let p = lower_chars(&chars_of(e.path.as_str()));
        let stem_hit = match path_file_stem(e.path.as_str()) {
            Some(st) => eq_ignore_ascii_case_chars(&chars_of(st.as_str()), &nc),
            None => false,
        };
        if has_suffix(&p, &a) || has_suffix(&p, &b) || stem_hit {
            proof {
                crate::index::lemma_first_where(idx.entries@, pr, i as int);
            }
            return Some(e);
        }
        i += 1;
    }
    proof {
        crate::index::lemma_first_where(idx.entries@, pr, i as int);
    }
    None
}

// ---------------------------------------------------------------------------
// Reading an example's syntax.
// ---------------------------------------------------------------------------
/// What the syntax walk of an example reports, in walk order.
#[derive(Clone, Debug)]
pub enum SyntaxEvent {
    /// A `fn` item with this name.
    FnItem(String),
    /// A method call `.name(..)`.
    MethodCall(String),
    /// A path expression, by its last segment.
    PathExpr(String),
    /// A struct literal, by its last path segment.
    StructLit(String),
    /// A call whose callee is a path, by the callee's last segment.
    CallPath(String),
    /// A name brought in by `use` (the new name for a rename).
    UseName(String),
}

/// The first character is upper case (`char::is_uppercase`).
pub open spec fn starts_upper(s: Seq<char>) -> bool {
    s.len() > 0 && upper_case(s[0])
}

/// The first character is an ASCII lowercase letter.
pub open spec fn starts_ascii_lower(s: Seq<char>) -> bool {
    s.len() > 0 && 'a' <= s[0] && s[0] <= 'z'
}

/// The type name an event contributes, if any.
pub open spec fn event_type(ev: SyntaxEvent) -> Option<String> {
    match ev {
        SyntaxEvent::PathExpr(n) => if starts_upper(n@) { Some(n) } else { None },
        SyntaxEvent::StructLit(n) => Some(n),
        SyntaxEvent::CallPath(n) => if starts_ascii_lower(n@) { None } else { Some(n) },
        SyntaxEvent::UseName(n) => if starts_upper(n@) { Some(n) } else { None },
        _ => None,
    }
}

/// The method name an event contributes, if any.
pub open spec fn event_method(ev: SyntaxEvent) -> Option<String> {
    match ev {
        SyntaxEvent::MethodCall(n) => Some(n),
        SyntaxEvent::CallPath(n) => if starts_ascii_lower(n@) { Some(n) } else { None },
        _ => None,
    }
}

/// The type names of the events, in order, with repeats.
pub open spec fn event_types(evs: Seq<SyntaxEvent>) -> Seq<StrKey>
    decreases evs.len(),
{
    if evs.len() == 0 {
        seq![]
    } else {
        let p = event_types(evs.drop_last());
        match event_type(evs.last()) {
            Some(n) => p.push(StrKey { s: n }),
            None => p,
        }
    }
}

/// The method names of the events, in order, with repeats.
pub open spec fn event_methods(evs: Seq<SyntaxEvent>) -> Seq<StrKey>
    decreases evs.len(),
{
    if evs.len() == 0 {
        seq![]
    } else {
        let p = event_methods(evs.drop_last());
        match event_method(evs.last()) {
            Some(n) => p.push(StrKey { s: n }),
            None => p,
        }
    }
}

/// Some event is a `fn main`.
pub open spec fn has_main_spec(evs: Seq<SyntaxEvent>) -> bool {
    exists|i: int| 0 <= i < evs.len() && is_main_fn(#[trigger] evs[i])
}

/// The event is a `fn main`.
pub open spec fn is_main_fn(ev: SyntaxEvent) -> bool {
    match ev {
        SyntaxEvent::FnItem(n) => n@ == "main"@,
        _ => false,
    }
}

fn starts_upper_exec(s: &String) -> (r: bool)
    ensures
        r == starts_upper(s@),
{
    let c = chars_of(s.as_str());
    c.len() > 0 && crate::text::char_is_uppercase(c[0])
}

fn starts_ascii_lower_exec(s: &String) -> (r: bool)
    ensures
        r == starts_ascii_lower(s@),
{
    let c = chars_of(s.as_str());
    c.len() > 0 && 'a' <= c[0] && c[0] <= 'z'
}

/// Sorted names without repeats.
pub(crate) fn sorted_unique(keys: Vec<StrKey>) -> (r: Vec<String>)
    ensures
        r@.map_values(|x: String| x@) == dedup_views(sorted(keys@)),
{
    let sorted_keys = sort_ranked(keys);
    let mut r: Vec<String> = Vec::new();
    let mut k: usize = 0;
    assert(sorted_keys@.take(0) =~= Seq::<StrKey>::empty());
    while k < sorted_keys.len()
        invariant
            k <= sorted_keys@.len(),
            r@.map_values(|x: String| x@) == dedup_views(sorted_keys@.take(k as int)),
        decreases sorted_keys@.len() - k,
    {
        let cur = &sorted_keys[k].s;
        proof {
            assert(sorted_keys@.take(k + 1).drop_last() =~= sorted_keys@.take(k as int));
            assert(sorted_keys@.take(k + 1).last() == sorted_keys@[k as int]);
        }
        let same = r.len() > 0 && chars_eq(&chars_of(r[r.len() - 1].as_str()), &chars_of(cur.as_str()));
        if !same {
            let ghost before = r@;
            r.push(cur.clone());
            assert(r@.map_values(|x: String| x@) =~= before.map_values(|x: String| x@).push(cur@));
        }
        k += 1;
    }
    assert(sorted_keys@.take(sorted_keys@.len() as int) =~= sorted_keys@);
    r
}

/// What an example uses: its type names and method names (sorted, without
/// repeats) and whether it has `fn main`.
pub fn collect_uses(evs: &Vec<SyntaxEvent>) -> (r: (Vec<String>, Vec<String>, bool))
    ensures
        r.0@.map_values(|x: String| x@) == dedup_views(sorted(event_types(evs@))),
        r.1@.map_values(|x: String| x@) == dedup_views(sorted(event_methods(evs@))),
        r.2 == has_main_spec(evs@),
{
    let mut types: Vec<StrKey> = Vec::new();
    let mut methods: Vec<StrKey> = Vec::new();
    let mut has_main = false;
    let mut i: usize = 0;
    while i < evs.len()
        invariant
            i <= evs@.len(),
            types@ == event_types(evs@.take(i as int)),
            methods@ == event_methods(evs@.take(i as int)),
            has_main == has_main_spec(evs@.take(i as int)),
        decreases evs@.len() - i,
    {
        let ev = &evs[i];
        proof {
            assert(evs@.take(i + 1).drop_last() =~= evs@.take(i as int));
            assert(evs@.take(i + 1).last() == *ev);
            assert(has_main_spec(evs@.take(i + 1)) == (has_main_spec(evs@.take(i as int)) || is_main_fn(*ev))) by {
                if has_main_spec(evs@.take(i as int)) {
                    let k = choose|k: int| 0 <= k < i && is_main_fn(#[trigger] evs@.take(i as int)[k]);
                    assert(evs@.take(i + 1)[k] == evs@.take(i as int)[k]);
                }
                if is_main_fn(*ev) {
                    assert(evs@.take(i + 1)[i as int] == *ev);
                }
                if has_main_spec(evs@.take(i + 1)) {
                    let k = choose|k: int| 0 <= k < i + 1 && is_main_fn(#[trigger] evs@.take(i + 1)[k]);
                    if k < i {
                        assert(evs@.take(i + 1)[k] == evs@.take(i as int)[k]);
                    }
                }
            }
        }
        match ev {
            SyntaxEvent::FnItem(n) => {
                if crate::text::str_is(n.as_str(), "main") {
                    has_main = true;
                }
            },
            SyntaxEvent::MethodCall(n) => {
                methods.push(StrKey { s: n.clone() });
            },
            SyntaxEvent::PathExpr(n) => {
                if starts_upper_exec(n) {
                    types.push(StrKey { s: n.clone() });
                }
            },
            SyntaxEvent::StructLit(n) => {
                types.push(StrKey { s: n.clone() });
            },
            SyntaxEvent::CallPath(n) => {
                if starts_ascii_lower_exec(n) {
                    methods.push(StrKey { s: n.clone() });
                } else {
                    types.push(StrKey { s: n.clone() });
                }
            },
            SyntaxEvent::UseName(n) => {
                if starts_upper_exec(n) {
                    types.push(StrKey { s: n.clone() });
                }
            },
        }
        i += 1;
    }
    assert(evs@.take(evs@.len() as int) =~= evs@);
    (sorted_unique(types), sorted_unique(methods), has_main)
}


// ---------------------------------------------------------------------------
// Building entries.
// ---------------------------------------------------------------------------
/// The relative path of a file that belongs in the example index: outside
/// `target` and `.git`, under `examples/` (any file of `tutorial`).
pub open spec fn example_rel_spec(source: Seq<char>, rel: Seq<char>) -> bool {
    !has_infix(rel, "/target/"@) && !has_infix(rel, "/.git/"@) && (has_infix(rel, "examples/"@) || source == "tutorial"@)
}

/// The `/`-separated path of a file under `root`, when the file belongs in
/// the example index of `source`.
pub fn example_rel(source: &str, root: &str, path: &str) -> (r: Option<String>)
    ensures
        ({
            let rel = crate::text::replace_char_spec(
                match crate::paths::strip_prefix_of(path@, root@) {
                    Some(x) => x,
                    None => path@,
                },
                '\\',
                '/',
            );
            match r {
                Some(x) => x@ == rel && example_rel_spec(source@, rel),
                None => !example_rel_spec(source@, rel),
            }
        }),
{
    let rel = crate::index::rel_unix(path, root);
    let rc = chars_of(rel.as_str());
    if contains_chars(&rc, &chars_of("/target/")) || contains_chars(&rc, &chars_of("/.git/")) {
        return None;
    }
    if !(contains_chars(&rc, &chars_of("examples/")) || crate::text::str_is(source, "tutorial")) {
        return None;
    }
    Some(rel)
}

/// The index entry of an example file.
pub open spec fn entry_matches(
    e: ExampleEntry,
    source: Seq<char>,
    rel: Seq<char>,
    path: Seq<char>,
    text: Seq<char>,
    evs: Seq<SyntaxEvent>,
) -> bool {
    &&& e.source@ == source
    &&& e.path@ == source + seq!['/'] + rel
    &&& e.title@ == crate::text::replace_char_spec(
        match file_stem_of(path) {
            Some(st) => st,
            None => "untitled"@,
        },
        '_',
        ' ',
    )
    &&& e.types_used@.map_values(|x: String| x@) == dedup_views(sorted(event_types(evs)))
    &&& e.methods_used@.map_values(|x: String| x@) == dedup_views(sorted(event_methods(evs)))
    &&& e.loc == crate::text::lines(text).len()
    &&& e.has_main == has_main_spec(evs)
}

/// The entry for an example file of `source` at `rel`, read from `path`.
pub fn example_entry(source: &str, rel: &str, path: &str, text: &str, evs: &Vec<SyntaxEvent>) -> (r: ExampleEntry)
    ensures
        entry_matches(r, source@, rel@, path@, text@, evs@),
{
    let (types, methods, has_main) = collect_uses(evs);
    let mut p: Vec<char> = Vec::new();
    push_str_chars(&mut p, source);
    p.push('/');
    push_str_chars(&mut p, rel);
    assert(p@ =~= source@ + seq!['/'] + rel@);
    let ls = crate::text::split_lines(&chars_of(text));
    proof {
        assert(crate::text::views(ls@).len() == ls@.len());
    }
    ExampleEntry {
        source: source.to_owned(),
        path: string_of(&p),
        title: crate::index::title_from_path(path),
        types_used: types,
        methods_used: methods,
        loc: ls.len(),
        has_main,
    }
}

impl Ranked for ExampleEntry {
    /// Entries are ordered by path.
    open spec fn ranks_le(&self, other: &Self) -> bool {
        lex_le(self.path@, other.path@)
    }

    fn le(&self, other: &Self) -> (r: bool) {
        lex_le_exec(&chars_of(self.path.as_str()), &chars_of(other.path.as_str()))
    }
}

/// The saved example index lists its entries in path order.
pub proof fn law_entries_by_path(entries: Seq<ExampleEntry>)
    ensures
        crate::sort::ordered(sorted(entries)),
{
    assert forall|a: ExampleEntry, b: ExampleEntry| #[trigger] a.ranks_le(&b) || b.ranks_le(&a) by {
        crate::text::lemma_lex_total(a.path@, b.path@);
    }
    assert forall|a: ExampleEntry, b: ExampleEntry, c: ExampleEntry| #[trigger] a.ranks_le(&b) && #[trigger] b.ranks_le(&c)
        implies a.ranks_le(&c) by {
        crate::text::lemma_lex_trans(a.path@, b.path@, c.path@);
    }
    crate::sort::lemma_sorted_ordered(entries);
}

/// The example index of the given entries, ordered by path.
pub fn finish_example_index(entries: Vec<ExampleEntry>, built_at: String) -> (r: ExampleIndex)
    ensures
        r.schema_version == INDEX_SCHEMA_VERSION,
        r.built_at == built_at,
        r.entries@ == sorted(entries@),
{
    ExampleIndex { schema_version: INDEX_SCHEMA_VERSION, built_at, entries: sort_ranked(entries) }
}

} // verus!
