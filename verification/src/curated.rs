//! Curated recipes (small, known-good programs) and the app scaffold.

use vstd::prelude::*;

use crate::index::{first_where, lemma_first_where, search_tokens, search_tokens_exec};
use crate::sort::{sort_ranked, sorted, Ranked};
use crate::text::{
    chars_eq, chars_of, contains_chars, has_infix, lex_le, lex_le_exec, lower_chars, lowercase,
    replace_all, replace_all_exec, string_of, utf8_len, utf8_len_gt, views, words,
};

verus! {

/// One recipe: a complete program for a common task.
#[derive(Clone, Debug)]
pub struct Recipe {
    pub id: String,
    pub title: String,
    pub tags: Vec<String>,
    pub symbols: Vec<String>,
    pub code: String,
}

/// The recipes and the scaffold templates.
pub struct Curated {
    recipes: Vec<Recipe>,
    cargo_git: String,
    cargo_path: String,
    main_rs: String,
}

/// How the scaffold's `Cargo.toml` depends on GPUI.
#[derive(Clone, Copy, Debug, PartialEq, Eq, Structural)]
pub enum DepMode {
    /// A git dependency on Zed at the pinned revision.
    Git,
    /// A path dependency on a local Zed checkout.
    Path,
}

impl Curated {
    /// The recipes, in the order given.
    pub closed spec fn recipes_view(&self) -> Seq<Recipe> {
        self.recipes@
    }

    /// The `Cargo.toml` template for a git dependency; `ZED_PINNED_REV` in it
    /// stands for the pinned revision.
    pub closed spec fn cargo_git_view(&self) -> Seq<char> {
        self.cargo_git@
    }

    /// The `Cargo.toml` template for a path dependency.
    pub closed spec fn cargo_path_view(&self) -> Seq<char> {
        self.cargo_path@
    }

    /// The scaffold's `main.rs`.
    pub closed spec fn main_view(&self) -> Seq<char> {
        self.main_rs@
    }

    /// Curated content from the recipes and the three scaffold templates.
    pub fn new(recipes: Vec<Recipe>, cargo_git: String, cargo_path: String, main_rs: String) -> (r: Curated)
        ensures
            r.recipes_view() == recipes@,
            r.cargo_git_view() == cargo_git@,
            r.cargo_path_view() == cargo_path@,
            r.main_view() == main_rs@,
    {
        Curated { recipes, cargo_git, cargo_path, main_rs }
    }

    /// The first recipe with this id.
    pub fn get(&self, id: &str) -> (r: Option<&Recipe>)
        ensures
            match first_where(self.recipes_view(), |x: Recipe| x.id@ == id@) {
                Some(i) => r == Some(&self.recipes_view()[i]),
                None => r is None,
            },
    {
        let q = chars_of(id);
        let ghost p = |x: Recipe| x.id@ == id@;
        let mut i: usize = 0;
        while i < self.recipes.len()
            invariant
                i <= self.recipes@.len(),
                q@ == id@,
                p == (|x: Recipe| x.id@ == id@),
                forall|k: int| 0 <= k < i ==> !p(#[trigger] self.recipes@[k]),
            decreases self.recipes@.len() - i,
        {
            if chars_eq(&chars_of(self.recipes[i].id.as_str()), &q) {
                proof {
                    lemma_first_where(self.recipes@, p, i as int);
                }
                return Some(&self.recipes[i]);
            }
            i += 1;
        }
        proof {
            lemma_first_where(self.recipes@, p, i as int);
        }
        None
    }

    /// All recipes.
    pub fn all(&self) -> (r: &[Recipe])
        ensures
            r@ == self.recipes_view(),
    {
        self.recipes.as_slice()
    }

    /// The scaffold's `Cargo.toml`: for `Git`, the template with every
    /// `ZED_PINNED_REV` replaced by the pinned revision; for `Path`, the
    /// path template.
    pub fn cargo_toml(&self, mode: DepMode) -> (r: String)
        ensures
            mode == DepMode::Git ==> r@ == replace_all(
                self.cargo_git_view(),
                "ZED_PINNED_REV"@,
                crate::sources::ZED_PINNED_REV@,
            ),
            mode == DepMode::Path ==> r@ == self.cargo_path_view(),
    {
        match mode {
            DepMode::Git => {
                let from = chars_of("ZED_PINNED_REV");
                proof {
                    reveal_strlit("ZED_PINNED_REV");
                }
                string_of(
                    &replace_all_exec(
                        &chars_of(self.cargo_git.as_str()),
                        &from,
                        &chars_of(crate::sources::ZED_PINNED_REV),
                    ),
                )
            },
            DepMode::Path => self.cargo_path.clone(),
        }
    }

    /// The scaffold's `main.rs`.
    pub fn scaffold_main(&self) -> (r: &str)
        ensures
            r@ == self.main_view(),
    {
        self.main_rs.as_str()
    }
}

/// A tag of the recipe matches the token: equal to it, or, for a token of at
/// least 3 bytes, containing it (tags compared in lowercase).
pub open spec fn tag_hit(tags: Seq<String>, t: Seq<char>) -> bool {
    exists|i: int|
        0 <= i < tags.len() && {
            let l = lowercase(#[trigger] tags[i]@);
            l == t || (utf8_len(t) >= 3 && has_infix(l, t))
        }
}

/// A symbol of the recipe equals or contains the token (in lowercase).
pub open spec fn symbol_hit(syms: Seq<String>, t: Seq<char>) -> bool {
    exists|i: int|
        0 <= i < syms.len() && {
            let l = lowercase(#[trigger] syms[i]@);
            l == t || has_infix(l, t)
        }
}

/// Score of one token for a recipe: 20 for the id itself, else 10 for an id
/// containing it; 8 for a title hit; 6 for a tag hit; 6 for a symbol hit.
pub open spec fn recipe_token_score(r: Recipe, t: Seq<char>) -> nat {
    (if r.id@ == t {
        20nat
    } else if has_infix(r.id@, t) {
        10nat
    } else {
        0nat
    }) + (if has_infix(lowercase(r.title@), t) {
        8nat
    } else {
        0nat
    }) + (if tag_hit(r.tags@, t) {
        6nat
    } else {
        0nat
    }) + (if symbol_hit(r.symbols@, t) {
        6nat
    } else {
        0nat
    })
}

/// Sum of the token scores.
pub open spec fn recipe_score(r: Recipe, toks: Seq<Seq<char>>) -> nat
    decreases toks.len(),
{
    if toks.len() == 0 {
        0
    } else {
        recipe_score(r, toks.drop_last()) + recipe_token_score(r, toks.last())
    }
}

proof fn lemma_recipe_score_bound(r: Recipe, toks: Seq<Seq<char>>)
    ensures
        recipe_score(r, toks) <= 40 * toks.len(),
    decreases toks.len(),
{
    if toks.len() > 0 {
        lemma_recipe_score_bound(r, toks.drop_last());
    }
}

/// A scored recipe: its score, its id, and its position.
#[derive(Clone, Debug)]
pub struct RecipeHit {
    pub score: u128,
    pub id: String,
    pub idx: usize,
}

impl Ranked for RecipeHit {
    /// Higher score first; by id among equal scores.
    open spec fn ranks_le(&self, other: &Self) -> bool {
        self.score > other.score || (self.score == other.score && lex_le(self.id@, other.id@))
    }

    fn le(&self, other: &Self) -> (r: bool) {
        self.score > other.score || (self.score == other.score && lex_le_exec(
            &chars_of(self.id.as_str()),
            &chars_of(other.id.as_str()),
        ))
    }
}

/// The recipes with a positive score, in order.
pub open spec fn recipe_candidates(rs: Seq<Recipe>, toks: Seq<Seq<char>>) -> Seq<RecipeHit>
    decreases rs.len(),
{
    if rs.len() == 0 {
        seq![]
    } else {
        let prev = recipe_candidates(rs.drop_last(), toks);
        let r = rs.last();
        if recipe_score(r, toks) > 0 {
            prev.push(RecipeHit { score: recipe_score(r, toks) as u128, id: r.id, idx: (rs.len() - 1) as usize })
        } else {
            prev
        }
    }
}

/// The positions of the recipes `search` returns: all of them, in order, for
/// a query without tokens; else those with a positive score, best first, by
/// id among equal scores.
pub open spec fn recipe_search_order(rs: Seq<Recipe>, query: Seq<char>) -> Seq<int> {
    let toks = search_tokens(query);
    if toks.len() == 0 {
        Seq::new(rs.len(), |i: int| i)
    } else {
        sorted(recipe_candidates(rs, toks)).map_values(|h: RecipeHit| h.idx as int)
    }
}

proof fn lemma_recipe_candidates_idx(rs: Seq<Recipe>, toks: Seq<Seq<char>>, k: int)
    requires
        0 <= k < recipe_candidates(rs, toks).len(),
    ensures
        recipe_candidates(rs, toks)[k].idx < rs.len(),
    decreases rs.len(),
{
    if rs.len() > 0 {
        let prev = recipe_candidates(rs.drop_last(), toks);
        if k < prev.len() {
            lemma_recipe_candidates_idx(rs.drop_last(), toks, k);
        }
    }
}

/// Recipes are ranked by a total preorder.
pub proof fn lemma_recipe_hit_order()
    ensures
        crate::sort::total_preorder::<RecipeHit>(),
{
    assert forall|a: RecipeHit, b: RecipeHit| #[trigger] a.ranks_le(&b) || b.ranks_le(&a) by {
        crate::text::lemma_lex_total(a.id@, b.id@);
    }
    assert forall|a: RecipeHit, b: RecipeHit, c: RecipeHit| #[trigger] a.ranks_le(&b) && #[trigger] b.ranks_le(&c)
        implies a.ranks_le(&c) by {
        if a.score == b.score && b.score == c.score {
            crate::text::lemma_lex_trans(a.id@, b.id@, c.id@);
        }
    }
}

proof fn lemma_recipe_candidates_ok(rs: Seq<Recipe>, toks: Seq<Seq<char>>, k: int)
    requires
        0 <= k < recipe_candidates(rs, toks).len(),
        rs.len() <= usize::MAX,
    ensures
        ({
            let h = recipe_candidates(rs, toks)[k];
            &&& h.idx < rs.len()
            &&& h.id == rs[h.idx as int].id
            &&& recipe_score(rs[h.idx as int], toks) > 0
        }),
    decreases rs.len(),
{
    if rs.len() > 0 {
        let prev = recipe_candidates(rs.drop_last(), toks);
        if k < prev.len() {
            lemma_recipe_candidates_ok(rs.drop_last(), toks, k);
            assert(rs.drop_last()[prev[k].idx as int] == rs[prev[k].idx as int]);
        }
    }
}

proof fn lemma_recipe_candidates_hold(rs: Seq<Recipe>, toks: Seq<Seq<char>>, n: int)
    requires
        0 <= n < rs.len(),
        rs.len() <= usize::MAX,
        recipe_score(rs[n], toks) > 0,
    ensures
        exists|k: int| 0 <= k < recipe_candidates(rs, toks).len() && #[trigger] recipe_candidates(rs, toks)[k].idx == n,
    decreases rs.len(),
{
    let c = recipe_candidates(rs, toks);
    if n == rs.len() - 1 {
        assert(c[c.len() - 1].idx == n);
    } else {
        assert(rs.drop_last()[n] == rs[n]);
        lemma_recipe_candidates_hold(rs.drop_last(), toks, n);
        let p = recipe_candidates(rs.drop_last(), toks);
        let k = choose|k: int| 0 <= k < p.len() && #[trigger] p[k].idx == n;
        assert(c[k] == p[k]);
    }
}

/// With query words, every recipe that scores above zero is answered.
pub proof fn law_recipe_search_complete(rs: Seq<Recipe>, query: Seq<char>, n: int)
    requires
        rs.len() <= usize::MAX,
        0 <= n < rs.len(),
        search_tokens(query).len() > 0,
        recipe_score(rs[n], search_tokens(query)) > 0,
    ensures
        exists|k: int| 0 <= k < recipe_search_order(rs, query).len() && #[trigger] recipe_search_order(rs, query)[k] == n,
{
    let toks = search_tokens(query);
    let c = recipe_candidates(rs, toks);
    lemma_recipe_candidates_hold(rs, toks, n);
    let k0 = choose|k: int| 0 <= k < c.len() && #[trigger] c[k].idx == n;
    crate::sort::lemma_sorted_contains(c, k0);
    crate::sort::lemma_sorted_all(c, |h: RecipeHit| true);
    let s = sorted(c);
    let j = choose|j: int| 0 <= j < s.len() && s[j] == c[k0];
    assert(recipe_search_order(rs, query)[j] == n);
}

/// A query whose words are all at most one byte long has no search tokens,
/// and recipe search then answers every recipe, in stored order.
pub proof fn law_recipe_search_one_byte_words(rs: Seq<Recipe>, query: Seq<char>)
    requires
        rs.len() <= usize::MAX,
        forall|i: int| 0 <= i < words(query).len() ==> utf8_len(#[trigger] words(query)[i]) <= 1,
    ensures
        search_tokens(query).len() == 0,
        recipe_search_order(rs, query) == Seq::new(rs.len(), |i: int| i),
{
    let m = words(query).map_values(crate::index::lowercase_fn());
    let p = crate::index::longer_than(1);
    assert forall|k: int| 0 <= k < m.len() implies !p(#[trigger] m[k]) by {
        crate::text::lemma_one_byte_lowercase(words(query)[k]);
    }
    assert(m.all(|x: Seq<char>| !p(x)));
    m.lemma_all_neg_filter_empty(p);
    law_recipe_search_best_first(rs, query);
}

proof fn lemma_recipe_score_ge_token(r: Recipe, toks: Seq<Seq<char>>, j: int)
    requires
        0 <= j < toks.len(),
    ensures
        recipe_score(r, toks) >= recipe_token_score(r, toks[j]),
    decreases toks.len(),
{
    if j < toks.len() - 1 {
        lemma_recipe_score_ge_token(r, toks.drop_last(), j);
        assert(toks.drop_last()[j] == toks[j]);
    }
}

/// A recipe one of whose symbols contains a search token (both in lowercase)
/// scores at least 6 for that token, and search answers it.
pub proof fn law_recipe_symbol_containing_token_is_answered(rs: Seq<Recipe>, query: Seq<char>, n: int, k: int, j: int)
    requires
        rs.len() <= usize::MAX,
        0 <= n < rs.len(),
        0 <= k < rs[n].symbols@.len(),
        0 <= j < search_tokens(query).len(),
        has_infix(lowercase(rs[n].symbols@[k]@), search_tokens(query)[j]),
    ensures
        recipe_token_score(rs[n], search_tokens(query)[j]) >= 6,
        recipe_score(rs[n], search_tokens(query)) >= 6,
        exists|p: int| 0 <= p < recipe_search_order(rs, query).len() && #[trigger] recipe_search_order(rs, query)[p] == n,
{
    let t = search_tokens(query)[j];
    assert(symbol_hit(rs[n].symbols@, t)) by {
        let l = lowercase(rs[n].symbols@[k]@);
        assert(l == t || has_infix(l, t));
    }
    lemma_recipe_score_ge_token(rs[n], search_tokens(query), j);
    law_recipe_search_complete(rs, query, n);
}

/// How a token scores for a recipe: at least 20 when it is the id, at least
/// 10 when the id contains it, at least 8 when the lowercase title contains
/// it, at least 6 when a lowercase tag equals it (or, for a token of at least
/// 3 bytes, contains it), at least 6 when a lowercase symbol contains it;
/// 0 when none of these holds, and never more than 40.
pub proof fn law_recipe_token_score_parts(r: Recipe, t: Seq<char>)
    ensures
        r.id@ == t ==> recipe_token_score(r, t) >= 20,
        has_infix(r.id@, t) ==> recipe_token_score(r, t) >= 10,
        has_infix(lowercase(r.title@), t) ==> recipe_token_score(r, t) >= 8,
        (exists|i: int|
            0 <= i < r.tags@.len() && (lowercase((#[trigger] r.tags@[i])@) == t || (utf8_len(t) >= 3 && has_infix(
                lowercase(r.tags@[i]@),
                t,
            )))) ==> recipe_token_score(r, t) >= 6,
        (exists|i: int| 0 <= i < r.symbols@.len() && has_infix(lowercase((#[trigger] r.symbols@[i])@), t))
            ==> recipe_token_score(r, t) >= 6,
        !(r.id@ == t || has_infix(r.id@, t) || has_infix(lowercase(r.title@), t) || (exists|i: int|
            0 <= i < r.tags@.len() && (lowercase((#[trigger] r.tags@[i])@) == t || (utf8_len(t) >= 3 && has_infix(
                lowercase(r.tags@[i]@),
                t,
            ))))) && !(exists|i: int|
            0 <= i < r.symbols@.len() && (lowercase((#[trigger] r.symbols@[i])@) == t || has_infix(lowercase(r.symbols@[i]@), t)))
            ==> recipe_token_score(r, t) == 0,
        recipe_token_score(r, t) <= 40,
{
    if exists|i: int| 0 <= i < r.symbols@.len() && has_infix(lowercase((#[trigger] r.symbols@[i])@), t) {
        let i = choose|i: int| 0 <= i < r.symbols@.len() && has_infix(lowercase((#[trigger] r.symbols@[i])@), t);
        assert(symbol_hit(r.symbols@, t)) by {
            let l = lowercase(r.symbols@[i]@);
            assert(l == t || has_infix(l, t));
        }
    }
}

/// Recipe search answers best first: with query words, only recipes that
/// score, scores never increasing along the answer and ids ascending among
/// equal scores; without query words, every recipe in order.
pub proof fn law_recipe_search_best_first(rs: Seq<Recipe>, query: Seq<char>)
    requires
        rs.len() <= usize::MAX,
    ensures
        search_tokens(query).len() == 0 ==> recipe_search_order(rs, query) == Seq::new(rs.len(), |i: int| i),
        search_tokens(query).len() > 0 ==> {
            let h = sorted(recipe_candidates(rs, search_tokens(query)));
            &&& recipe_search_order(rs, query) == h.map_values(|x: RecipeHit| x.idx as int)
            &&& forall|i: int, j: int| #![trigger h[i], h[j]]
                0 <= i < j < h.len() ==> h[i].score > h[j].score || (h[i].score == h[j].score && lex_le(
                    h[i].id@,
                    h[j].id@,
                ))
            &&& forall|k: int|
                0 <= k < h.len() ==> (#[trigger] h[k]).idx < rs.len() && h[k].id == rs[h[k].idx as int].id
                    && recipe_score(rs[h[k].idx as int], search_tokens(query)) > 0
        },
{
    let toks = search_tokens(query);
    if toks.len() > 0 {
        let c = recipe_candidates(rs, toks);
        lemma_recipe_hit_order();
        crate::sort::lemma_sorted_ordered(c);
        let ok = |x: RecipeHit| x.idx < rs.len() && x.id == rs[x.idx as int].id && recipe_score(rs[x.idx as int], toks) > 0;
        assert forall|k: int| 0 <= k < c.len() implies ok(#[trigger] c[k]) by {
            lemma_recipe_candidates_ok(rs, toks, k);
        }
        crate::sort::lemma_sorted_all(c, ok);
    }
}

/// Whether a tag hits the token (see `tag_hit`).
fn tag_hit_exec(tags: &Vec<String>, t: &Vec<char>) -> (r: bool)
    ensures
        r == tag_hit(tags@, t@),
{
    let long = utf8_len_gt(t, 2);
    let mut i: usize = 0;
    while i < tags.len()
        invariant
            i <= tags@.len(),
            long == (utf8_len(t@) >= 3),
            forall|k: int|
                0 <= k < i ==> {
                    let l = lowercase(#[trigger] tags@[k]@);
                    !(l == t@ || (utf8_len(t@) >= 3 && has_infix(l, t@)))
                },
        decreases tags@.len() - i,
    {
        let l = lower_chars(&chars_of(tags[i].as_str()));
        if chars_eq(&l, t) || (long && contains_chars(&l, t)) {
            return true;
        }
        i += 1;
    }
    false
}

/// Whether a symbol hits the token (see `symbol_hit`).
fn symbol_hit_exec(syms: &Vec<String>, t: &Vec<char>) -> (r: bool)
    ensures
        r == symbol_hit(syms@, t@),
{
    let mut i: usize = 0;
    while i < syms.len()
        invariant
            i <= syms@.len(),
            forall|k: int|
                0 <= k < i ==> {
                    let l = lowercase(#[trigger] syms@[k]@);
                    !(l == t@ || has_infix(l, t@))
                },
        decreases syms@.len() - i,
    {
        let l = lower_chars(&chars_of(syms[i].as_str()));
        if chars_eq(&l, t) || contains_chars(&l, t) {
            return true;
        }
        i += 1;
    }
    false
}

/// Score of a recipe for the tokens.
fn score_recipe(r: &Recipe, toks: &Vec<Vec<char>>) -> (n: u128)
    ensures
        n == recipe_score(*r, views(toks@)),
{
    let id = chars_of(r.id.as_str());
    let title = lower_chars(&chars_of(r.title.as_str()));
    let mut n: u128 = 0;
    let mut k: usize = 0;
    while k < toks.len()
        invariant
            k <= toks@.len(),
            id@ == r.id@,
            title@ == lowercase(r.title@),
            n == recipe_score(*r, views(toks@).take(k as int)),
        decreases toks@.len() - k,
    {
        let t = &toks[k];
        let mut add: u128 = 0;
        if chars_eq(&id, t) {
            add = add + 20;
        } else if contains_chars(&id, t) {
            add = add + 10;
        }
        if contains_chars(&title, t) {
            add = add + 8;
        }
        if tag_hit_exec(&r.tags, t) {
            add = add + 6;
        }
        if symbol_hit_exec(&r.symbols, t) {
            add = add + 6;
        }
        proof {
            assert(views(toks@).take(k + 1).drop_last() =~= views(toks@).take(k as int));
            assert(views(toks@).take(k + 1).last() == t@);
            lemma_recipe_score_bound(*r, views(toks@).take(k as int));
        }
        n = n + add;
        k += 1;
    }
    assert(views(toks@).take(toks@.len() as int) =~= views(toks@));
    n
}

impl Curated {
    /// Recipes that match the query words (lowercase, longer than one byte),
    /// best first, by id among equal scores; all recipes when the query has
    /// no such word.
    pub fn search(&self, query: &str) -> (r: Vec<&Recipe>)
        ensures
            r@.len() == recipe_search_order(self.recipes_view(), query@).len(),
            forall|k: int|
                0 <= k < r@.len() ==> {
                    let i = #[trigger] recipe_search_order(self.recipes_view(), query@)[k];
                    0 <= i < self.recipes_view().len() && *r@[k] == self.recipes_view()[i]
                },
    {
        let toks = search_tokens_exec(query);
        let ghost gt = views(toks@);
        let ghost order = recipe_search_order(self.recipes@, query@);
        let mut r: Vec<&Recipe> = Vec::new();
        if toks.len() == 0 {
            let mut i: usize = 0;
            while i < self.recipes.len()
                invariant
                    i <= self.recipes@.len(),
                    gt == search_tokens(query@),
                    gt.len() == 0,
                    order == Seq::new(self.recipes@.len(), |j: int| j),
                    r@.len() == i,
                    forall|j: int| 0 <= j < i ==> *r@[j] == self.recipes@[j],
                decreases self.recipes@.len() - i,
            {
                r.push(&self.recipes[i]);
                i += 1;
            }
            return r;
        }
        let mut cands: Vec<RecipeHit> = Vec::new();
        let mut i: usize = 0;
        while i < self.recipes.len()
            invariant
                i <= self.recipes@.len(),
                gt == views(toks@),
                cands@ == recipe_candidates(self.recipes@.take(i as int), gt),
            decreases self.recipes@.len() - i,
        {
            let rc = &self.recipes[i];
            proof {
                assert(self.recipes@.take(i + 1).drop_last() =~= self.recipes@.take(i as int));
                assert(self.recipes@.take(i + 1).last() == *rc);
            }
            let sc = score_recipe(rc, &toks);
            if sc > 0 {
                cands.push(RecipeHit { score: sc, id: rc.id.clone(), idx: i });
            }
            i += 1;
        }
        assert(self.recipes@.take(self.recipes@.len() as int) =~= self.recipes@);
        let s = sort_ranked(cands);
        proof {
            assert forall|k: int| 0 <= k < cands@.len() implies (#[trigger] cands@[k]).idx < self.recipes@.len() by {
                lemma_recipe_candidates_idx(self.recipes@, gt, k);
            }
            crate::sort::lemma_sorted_all(cands@, |h: RecipeHit| h.idx < self.recipes@.len());
        }
        assert(order =~= s@.map_values(|h: RecipeHit| h.idx as int));
        let mut k: usize = 0;
        while k < s.len()
            invariant
                k <= s@.len(),
                order == s@.map_values(|h: RecipeHit| h.idx as int),
                forall|j: int| 0 <= j < s@.len() ==> (#[trigger] s@[j]).idx < self.recipes@.len(),
                r@.len() == k,
                forall|j: int| 0 <= j < k ==> *r@[j] == self.recipes@[order[j]],
            decreases s@.len() - k,
        {
            r.push(&self.recipes[s[k].idx]);
            k += 1;
        }
        r
    }
}

} // verus!
