//! The symbol index built from GPUI's sources: lookup by name and the method
//! listing of a type.

use vstd::prelude::*;

use crate::paths::{join_of, path_join};
use crate::sort::{sort_ranked, sorted, Ranked};
use crate::text::{
    ascii_lower_chars, ascii_lower_seq, chars_are, chars_eq, chars_of, contains_chars, has_infix,
    has_prefix, lower_chars, lowercase, string_of, trim, trim_chars,
};

verus! {

/// Version of the serialized index layout.
pub const INDEX_SCHEMA_VERSION: u32 = 1;

/// What kind of item a symbol is.
#[derive(Clone, Copy, Debug, PartialEq, Eq, Structural)]
pub enum SymbolKind {
    Struct,
    Enum,
    Trait,
    TraitMethod,
    Method,
    Fn,
    TypeAlias,
    Const,
    Macro,
}

/// One public item of GPUI.
#[derive(Clone, Debug)]
pub struct ApiSymbol {
    pub kind: SymbolKind,
    pub name: String,
    pub owner: Option<String>,
    pub via_trait: Option<String>,
    pub signature: String,
    pub doc: String,
    pub file: String,
    pub line: usize,
    pub deprecated: bool,
    pub cfg: Vec<String>,
    pub generated: bool,
}

/// A trait implemented for a type.
#[derive(Clone, Debug)]
pub struct TraitImplRecord {
    pub trait_name: String,
    pub for_type: String,
}

/// The whole symbol index.
#[derive(Clone, Debug)]
pub struct ApiIndex {
    pub schema_version: u32,
    pub zed_commit: String,
    pub gpui_version: String,
    pub built_at: String,
    pub skipped_files: Vec<String>,
    pub trait_impls: Vec<TraitImplRecord>,
    pub symbols: Vec<ApiSymbol>,
}

/// The kind named by a filter word already in ASCII lowercase.
pub open spec fn kind_for_word(w: Seq<char>) -> Option<SymbolKind> {
    if w == "struct"@ {
        Some(SymbolKind::Struct)
    } else if w == "enum"@ {
        Some(SymbolKind::Enum)
    } else if w == "trait"@ {
        Some(SymbolKind::Trait)
    } else if w == "traitmethod"@ || w == "trait_method"@ {
        Some(SymbolKind::TraitMethod)
    } else if w == "method"@ {
        Some(SymbolKind::Method)
    } else if w == "fn"@ || w == "function"@ {
        Some(SymbolKind::Fn)
    } else if w == "typealias"@ || w == "type_alias"@ || w == "type"@ {
        Some(SymbolKind::TypeAlias)
    } else if w == "const"@ {
        Some(SymbolKind::Const)
    } else if w == "macro"@ {
        Some(SymbolKind::Macro)
    } else {
        None
    }
}

impl SymbolKind {
    /// The kind named by a filter word, ASCII case ignored.
    pub fn parse_filter(s: &str) -> (r: Option<SymbolKind>)
        ensures
            r == kind_for_word(ascii_lower_seq(s@)),
    {
        let w = ascii_lower_chars(&chars_of(s));
        if chars_are(&w, "struct") {
            Some(SymbolKind::Struct)
        } else if chars_are(&w, "enum") {
            Some(SymbolKind::Enum)
        } else if chars_are(&w, "trait") {
            Some(SymbolKind::Trait)
        } else if chars_are(&w, "traitmethod") || chars_are(&w, "trait_method") {
            Some(SymbolKind::TraitMethod)
        } else if chars_are(&w, "method") {
            Some(SymbolKind::Method)
        } else if chars_are(&w, "fn") || chars_are(&w, "function") {
            Some(SymbolKind::Fn)
        } else if chars_are(&w, "typealias") || chars_are(&w, "type_alias") || chars_are(&w, "type") {
            Some(SymbolKind::TypeAlias)
        } else if chars_are(&w, "const") {
            Some(SymbolKind::Const)
        } else if chars_are(&w, "macro") {
            Some(SymbolKind::Macro)
        } else {
            None
        }
    }
}

/// The name `Debug` writes for a kind: the variant's name.
pub open spec fn kind_debug(k: SymbolKind) -> Seq<char> {
    match k {
        SymbolKind::Struct => "Struct"@,
        SymbolKind::Enum => "Enum"@,
        SymbolKind::Trait => "Trait"@,
        SymbolKind::TraitMethod => "TraitMethod"@,
        SymbolKind::Method => "Method"@,
        SymbolKind::Fn => "Fn"@,
        SymbolKind::TypeAlias => "TypeAlias"@,
        SymbolKind::Const => "Const"@,
        SymbolKind::Macro => "Macro"@,
    }
}

/// `parse_filter` accepts the name of every kind, as `{:?}` writes it, in
/// any ASCII case.
pub proof fn law_parse_filter_kind_names(k: SymbolKind, s: Seq<char>)
    requires
        ascii_lower_seq(s) == ascii_lower_seq(kind_debug(k)),
    ensures
        kind_for_word(ascii_lower_seq(s)) == Some(k),
{
    reveal_strlit("Struct");
    reveal_strlit("Enum");
    reveal_strlit("Trait");
    reveal_strlit("TraitMethod");
    reveal_strlit("Method");
    reveal_strlit("Fn");
    reveal_strlit("TypeAlias");
    reveal_strlit("Const");
    reveal_strlit("Macro");
    reveal_strlit("struct");
    reveal_strlit("enum");
    reveal_strlit("trait");
    reveal_strlit("traitmethod");
    reveal_strlit("trait_method");
    reveal_strlit("method");
    reveal_strlit("fn");
    reveal_strlit("function");
    reveal_strlit("typealias");
    reveal_strlit("type_alias");
    reveal_strlit("type");
    reveal_strlit("const");
    reveal_strlit("macro");
    let w = ascii_lower_seq(kind_debug(k));
    assert(ascii_lower_seq(s) == w);
    match k {
        SymbolKind::Struct => {
            assert(w =~= "struct"@);
            assert(kind_for_word(w) == Some(k));
        },
        SymbolKind::Enum => {
            assert(w =~= "enum"@);
            assert(kind_for_word(w) == Some(k));
        },
        SymbolKind::Trait => {
            assert(w =~= "trait"@);
            assert(kind_for_word(w) == Some(k));
        },
        SymbolKind::TraitMethod => {
            assert(w =~= "traitmethod"@);
            assert(kind_for_word(w) == Some(k));
        },
        SymbolKind::Method => {
            assert(w =~= "method"@);
            assert(w[0] != "struct"@[0]);
            assert(kind_for_word(w) == Some(k));
        },
        SymbolKind::Fn => {
            assert(w =~= "fn"@);
            assert(kind_for_word(w) == Some(k));
        },
        SymbolKind::TypeAlias => {
            assert(w =~= "typealias"@);
            assert(kind_for_word(w) == Some(k));
        },
        SymbolKind::Const => {
            assert(w =~= "const"@);
            assert(w[0] != "trait"@[0]);
            assert(kind_for_word(w) == Some(k));
        },
        SymbolKind::Macro => {
            assert(w =~= "macro"@);
            assert(w[0] != "trait"@[0] && w[0] != "const"@[0]);
            assert(kind_for_word(w) == Some(k));
        },
    }
}

impl SymbolKind {
    /// The variant's name, as `{:?}` writes it.
    pub fn name(&self) -> (r: &'static str)
        ensures
            r@ == kind_debug(*self),
    {
        match self {
            SymbolKind::Struct => "Struct",
            SymbolKind::Enum => "Enum",
            SymbolKind::Trait => "Trait",
            SymbolKind::TraitMethod => "TraitMethod",
            SymbolKind::Method => "Method",
            SymbolKind::Fn => "Fn",
            SymbolKind::TypeAlias => "TypeAlias",
            SymbolKind::Const => "Const",
            SymbolKind::Macro => "Macro",
        }
    }
}

impl ApiIndex {
    /// An index with no symbols, of the current schema.
    pub fn empty() -> (r: ApiIndex)
        ensures
            r.schema_version == INDEX_SCHEMA_VERSION,
            r.zed_commit@ == Seq::<char>::empty(),
            r.gpui_version@ == "unknown"@,
            r.built_at@ == Seq::<char>::empty(),
            r.skipped_files@.len() == 0,
            r.trait_impls@.len() == 0,
            r.symbols@.len() == 0,
    {
        ApiIndex {
            schema_version: INDEX_SCHEMA_VERSION,
            zed_commit: String::new(),
            gpui_version: "unknown".to_owned(),
            built_at: String::new(),
            skipped_files: Vec::new(),
            trait_impls: Vec::new(),
            symbols: Vec::new(),
        }
    }
}

/// Where the symbol index is stored under the cache directory.
pub fn index_path(cache: &str) -> (r: String)
    ensures
        r@ == join_of(join_of(cache@, "index"@), "api_index.json"@),
{
    let dir = path_join(cache, "index");
    path_join(dir.as_str(), "api_index.json")
}


/// How well a symbol matches a lowercase query: 1 for the same name, 2 for
/// a name that starts with it, 3 for a name that contains it, 4 for a doc
/// that contains it (names and docs compared in lowercase).
pub open spec fn lookup_tier_spec(s: ApiSymbol, q: Seq<char>) -> Option<u8> {
    let n = lowercase(s.name@);
    if n == q {
        Some(1u8)
    } else if q.is_prefix_of(n) {
        Some(2u8)
    } else if has_infix(n, q) {
        Some(3u8)
    } else if has_infix(lowercase(s.doc@), q) {
        Some(4u8)
    } else {
        None
    }
}

/// The tier of a symbol for a lowercase query: 1 exactly for the same
/// lowercase name, else 2 for a name that starts with it, else 3 for a name
/// that contains it, else 4 for a doc that contains it, else no tier.
pub proof fn law_lookup_tier(s: ApiSymbol, q: Seq<char>)
    ensures
        lookup_tier_spec(s, q) == Some(1u8) <==> lowercase(s.name@) == q,
        lookup_tier_spec(s, q) == Some(2u8) <==> lowercase(s.name@) != q && q.is_prefix_of(lowercase(s.name@)),
        lookup_tier_spec(s, q) == Some(3u8) <==> lowercase(s.name@) != q && !q.is_prefix_of(lowercase(s.name@)) && has_infix(
            lowercase(s.name@),
            q,
        ),
        lookup_tier_spec(s, q) == Some(4u8) <==> !has_infix(lowercase(s.name@), q) && lowercase(s.name@) != q
            && !q.is_prefix_of(lowercase(s.name@)) && has_infix(lowercase(s.doc@), q),
        lookup_tier_spec(s, q) is None <==> !has_infix(lowercase(s.name@), q) && lowercase(s.name@) != q
            && !q.is_prefix_of(lowercase(s.name@)) && !has_infix(lowercase(s.doc@), q),
{
}

/// A matching symbol: its tier and its index in the index.
#[derive(Clone, Copy, Debug)]
pub struct SymbolHit {
    pub tier: u8,
    pub idx: usize,
}

impl Ranked for SymbolHit {
    open spec fn ranks_le(&self, other: &Self) -> bool {
        self.tier <= other.tier
    }

    fn le(&self, other: &Self) -> (r: bool) {
        self.tier <= other.tier
    }
}

/// The symbol passes the kind filter.
pub open spec fn kind_ok(s: ApiSymbol, kf: Option<SymbolKind>) -> bool {
    match kf {
        Some(k) => s.kind == k,
        None => true,
    }
}

/// The symbols that pass the kind filter and match the query, in index order.
pub open spec fn lookup_candidates(syms: Seq<ApiSymbol>, q: Seq<char>, kf: Option<SymbolKind>) -> Seq<SymbolHit>
    decreases syms.len(),
{
    if syms.len() == 0 {
        seq![]
    } else {
        let prev = lookup_candidates(syms.drop_last(), q, kf);
        let s = syms.last();
        if kind_ok(s, kf) && lookup_tier_spec(s, q) is Some {
            prev.push(SymbolHit { tier: lookup_tier_spec(s, q)->0, idx: (syms.len() - 1) as usize })
        } else {
            prev
        }
    }
}

/// At most `limit` elements of `s`.
pub open spec fn take_at_most<T>(s: Seq<T>, limit: nat) -> Seq<T> {
    if limit < s.len() {
        s.take(limit as int)
    } else {
        s
    }
}

/// What `lookup` returns, as hits: nothing for a blank query, a zero limit or
/// an unknown kind word; else the matching symbols by tier (index order within
/// a tier), at most `limit`.
pub open spec fn lookup_hits(
    syms: Seq<ApiSymbol>,
    query: Seq<char>,
    kind: Option<Seq<char>>,
    limit: nat,
) -> Seq<SymbolHit> {
    let q = lowercase(query);
    if trim(query).len() == 0 || limit == 0 {
        seq![]
    } else {
        match kind {
            Some(k) => match kind_for_word(ascii_lower_seq(k)) {
                Some(kf) => take_at_most(sorted(lookup_candidates(syms, q, Some(kf))), limit),
                None => seq![],
            },
            None => take_at_most(sorted(lookup_candidates(syms, q, None)), limit),
        }
    }
}

/// The tier of a symbol for a lowercase query.
fn lookup_tier(s: &ApiSymbol, q: &Vec<char>) -> (r: Option<u8>)
    ensures
        r == lookup_tier_spec(*s, q@),
{
    let n = lower_chars(&chars_of(s.name.as_str()));
    if chars_eq(&n, q) {
        Some(1)
    } else if has_prefix(&n, q) {
        Some(2)
    } else if contains_chars(&n, q) {
        Some(3)
    } else if contains_chars(&lower_chars(&chars_of(s.doc.as_str())), q) {
        Some(4)
    } else {
        None
    }
}

proof fn lemma_lookup_candidates_idx(syms: Seq<ApiSymbol>, q: Seq<char>, kf: Option<SymbolKind>, k: int)
    requires
        0 <= k < lookup_candidates(syms, q, kf).len(),
    ensures
        lookup_candidates(syms, q, kf)[k].idx < syms.len(),
    decreases syms.len(),
{
    if syms.len() > 0 {
        if k < lookup_candidates(syms.drop_last(), q, kf).len() {
            lemma_lookup_candidates_idx(syms.drop_last(), q, kf, k);
        }
    }
}

proof fn lemma_lookup_candidates_ok(syms: Seq<ApiSymbol>, q: Seq<char>, kf: Option<SymbolKind>, k: int)
    requires
        0 <= k < lookup_candidates(syms, q, kf).len(),
        syms.len() <= usize::MAX,
    ensures
        ({
            let h = lookup_candidates(syms, q, kf)[k];
            &&& h.idx < syms.len()
            &&& kind_ok(syms[h.idx as int], kf)
            &&& lookup_tier_spec(syms[h.idx as int], q) == Some(h.tier)
        }),
    decreases syms.len(),
{
    if syms.len() > 0 {
        let prev = lookup_candidates(syms.drop_last(), q, kf);
        if k < prev.len() {
            lemma_lookup_candidates_ok(syms.drop_last(), q, kf, k);
            assert(syms.drop_last()[prev[k].idx as int] == syms[prev[k].idx as int]);
        }
    }
}

/// Lookup answers best first: tiers never decrease along the answer (exact
/// name, then prefix, then substring, then doc match); there are at most
/// `limit` symbols, each of the kind asked for and matching the lowercase
/// query at its tier.
pub proof fn law_lookup_best_first(syms: Seq<ApiSymbol>, query: Seq<char>, kind: Option<Seq<char>>, limit: nat)
    requires
        syms.len() <= usize::MAX,
    ensures
        ({
            let h = lookup_hits(syms, query, kind, limit);
            let kf = match kind {
                Some(k) => kind_for_word(ascii_lower_seq(k)),
                None => None,
            };
            &&& h.len() <= limit
            &&& forall|i: int, j: int| #![trigger h[i], h[j]] 0 <= i < j < h.len() ==> h[i].tier <= h[j].tier
            &&& forall|k: int|
                0 <= k < h.len() ==> {
                    &&& (#[trigger] h[k]).idx < syms.len()
                    &&& kind_ok(syms[h[k].idx as int], kf)
                    &&& lookup_tier_spec(syms[h[k].idx as int], lowercase(query)) == Some(h[k].tier)
                }
        }),
{
    let q = lowercase(query);
    let kf = match kind {
        Some(k) => kind_for_word(ascii_lower_seq(k)),
        None => None,
    };
    if trim(query).len() > 0 && limit > 0 && (kind is None || kf is Some) {
        let c = lookup_candidates(syms, q, kf);
        crate::sort::lemma_sorted_ordered(c);
        let ok = |x: SymbolHit|
            x.idx < syms.len() && kind_ok(syms[x.idx as int], kf) && lookup_tier_spec(syms[x.idx as int], q) == Some(
                x.tier,
            );
        assert forall|k: int| 0 <= k < c.len() implies ok(#[trigger] c[k]) by {
            lemma_lookup_candidates_ok(syms, q, kf, k);
        }
        crate::sort::lemma_sorted_all(c, ok);
        let s = sorted(c);
        if limit < s.len() {
            crate::sort::lemma_ordered_take(s, limit as int);
            assert forall|k: int| 0 <= k < s.take(limit as int).len() implies ok(#[trigger] s.take(limit as int)[k]) by {
                assert(s.take(limit as int)[k] == s[k]);
            }
        }
    }
}

/// With a kind word that names a kind, every symbol lookup answers is of
/// that kind; with a word that names no kind, lookup answers nothing.
pub proof fn law_lookup_kind_filter(syms: Seq<ApiSymbol>, query: Seq<char>, kind: Seq<char>, limit: nat)
    requires
        syms.len() <= usize::MAX,
    ensures
        ({
            let h = lookup_hits(syms, query, Some(kind), limit);
            &&& kind_for_word(ascii_lower_seq(kind)) matches Some(k) ==> forall|i: int|
                0 <= i < h.len() ==> (#[trigger] h[i]).idx < syms.len() && syms[h[i].idx as int].kind == k
            &&& kind_for_word(ascii_lower_seq(kind)) is None ==> h.len() == 0
        }),
{
    law_lookup_best_first(syms, query, Some(kind), limit);
}

proof fn lemma_candidates_have(syms: Seq<ApiSymbol>, q: Seq<char>, kf: Option<SymbolKind>, i: int)
    requires
        0 <= i < syms.len(),
        syms.len() <= usize::MAX,
        kind_ok(syms[i], kf),
        lookup_tier_spec(syms[i], q) is Some,
    ensures
        exists|k: int|
            0 <= k < lookup_candidates(syms, q, kf).len() && #[trigger] lookup_candidates(syms, q, kf)[k].tier
                == lookup_tier_spec(syms[i], q)->0,
    decreases syms.len(),
{
    let c = lookup_candidates(syms, q, kf);
    if i == syms.len() - 1 {
        assert(c[c.len() - 1].tier == lookup_tier_spec(syms[i], q)->0);
    } else {
        assert(syms.drop_last()[i] == syms[i]);
        lemma_candidates_have(syms.drop_last(), q, kf, i);
        let p = lookup_candidates(syms.drop_last(), q, kf);
        let k = choose|k: int| 0 <= k < p.len() && #[trigger] p[k].tier == lookup_tier_spec(syms[i], q)->0;
        assert(c[k] == p[k]);
    }
}

/// A symbol whose name is the query (case aside) is answered first: when one
/// exists, of the kind asked for, the first answer is an exact name match.
pub proof fn law_lookup_exact_name_first(syms: Seq<ApiSymbol>, query: Seq<char>, kind: Option<Seq<char>>, limit: nat, i: int)
    requires
        syms.len() <= usize::MAX,
        0 <= i < syms.len(),
        lowercase(syms[i].name@) == lowercase(query),
        trim(query).len() > 0,
        limit > 0,
        match kind {
            Some(k) => kind_for_word(ascii_lower_seq(k)) == Some(syms[i].kind),
            None => true,
        },
    ensures
        ({
            let h = lookup_hits(syms, query, kind, limit);
            h.len() > 0 && h[0].tier == 1 && lowercase(syms[h[0].idx as int].name@) == lowercase(query)
        }),
{
    let q = lowercase(query);
    let kf = match kind {
        Some(k) => kind_for_word(ascii_lower_seq(k)),
        None => None,
    };
    let c = lookup_candidates(syms, q, kf);
    lemma_candidates_have(syms, q, kf, i);
    let k = choose|k: int| 0 <= k < c.len() && #[trigger] c[k].tier == lookup_tier_spec(syms[i], q)->0;
    let s = sorted(c);
    crate::sort::lemma_sorted_contains(c, k);
    crate::sort::lemma_sorted_all(c, |x: SymbolHit| true);
    let j = choose|j: int| 0 <= j < s.len() && s[j] == c[k];
    crate::sort::lemma_sorted_ordered(c);
    if j > 0 {
        assert(s[0].ranks_le(&s[j]));
    }
    law_lookup_best_first(syms, query, kind, limit);
    let h = lookup_hits(syms, query, kind, limit);
    assert(h[0] == s[0]);
    let _ = h[0];
}

proof fn lemma_candidates_increasing(syms: Seq<ApiSymbol>, q: Seq<char>, kf: Option<SymbolKind>)
    requires
        syms.len() <= usize::MAX,
    ensures
        ({
            let c = lookup_candidates(syms, q, kf);
            &&& forall|a: int| 0 <= a < c.len() ==> (#[trigger] c[a]).idx < syms.len()
            &&& forall|a: int, b: int| #![trigger c[a], c[b]] 0 <= a < b < c.len() ==> c[a].idx < c[b].idx
        }),
    decreases syms.len(),
{
    if syms.len() > 0 {
        lemma_candidates_increasing(syms.drop_last(), q, kf);
        let p = lookup_candidates(syms.drop_last(), q, kf);
        let c = lookup_candidates(syms, q, kf);
        assert forall|a: int| 0 <= a < c.len() implies (#[trigger] c[a]).idx < syms.len() by {
            if a < p.len() {
                assert(c[a] == p[a]);
            }
        }
        assert forall|a: int, b: int| #![trigger c[a], c[b]] 0 <= a < b < c.len() implies c[a].idx < c[b].idx by {
            assert(c[a] == p[a]);
            if b < p.len() {
                assert(c[b] == p[b]);
            } else {
                assert(c[b].idx == syms.len() - 1);
            }
        }
    }
}

proof fn lemma_candidates_hold(syms: Seq<ApiSymbol>, q: Seq<char>, kf: Option<SymbolKind>, i: int)
    requires
        0 <= i < syms.len(),
        syms.len() <= usize::MAX,
        kind_ok(syms[i], kf),
        lookup_tier_spec(syms[i], q) is Some,
    ensures
        exists|k: int|
            0 <= k < lookup_candidates(syms, q, kf).len() && #[trigger] lookup_candidates(syms, q, kf)[k]
                == (SymbolHit { tier: lookup_tier_spec(syms[i], q)->0, idx: i as usize }),
    decreases syms.len(),
{
    let c = lookup_candidates(syms, q, kf);
    if i == syms.len() - 1 {
        assert(c[c.len() - 1] == (SymbolHit { tier: lookup_tier_spec(syms[i], q)->0, idx: i as usize }));
    } else {
        assert(syms.drop_last()[i] == syms[i]);
        lemma_candidates_hold(syms.drop_last(), q, kf, i);
        let p = lookup_candidates(syms.drop_last(), q, kf);
        let k = choose|k: int|
            0 <= k < p.len() && #[trigger] p[k] == (SymbolHit { tier: lookup_tier_spec(syms[i], q)->0, idx: i as usize });
        assert(c[k] == p[k]);
    }
}

/// `(tier, index)` of one hit comes strictly before that of another.
pub open spec fn hit_before(a: SymbolHit, b: SymbolHit) -> bool {
    a.tier < b.tier || (a.tier == b.tier && a.idx < b.idx)
}

/// Lookup orders its answers by tier, then by position in the index, and
/// cuts them at `limit`: along the answer `(tier, index)` strictly increases,
/// and a matching symbol of the kind asked for is left out only when the
/// answer already holds `limit` symbols, all before it in that order.
pub proof fn law_lookup_by_tier_then_position(
    syms: Seq<ApiSymbol>,
    query: Seq<char>,
    kind: Option<Seq<char>>,
    limit: nat,
)
    requires
        syms.len() <= usize::MAX,
    ensures
        ({
            let h = lookup_hits(syms, query, kind, limit);
            let q = lowercase(query);
            let kf = match kind {
                Some(k) => kind_for_word(ascii_lower_seq(k)),
                None => None,
            };
            &&& forall|i: int, j: int| #![trigger h[i], h[j]] 0 <= i < j < h.len() ==> hit_before(h[i], h[j])
            &&& forall|n: int|
                #![trigger syms[n]]
                0 <= n < syms.len() && trim(query).len() > 0 && limit > 0 && (kind is None || kf is Some) && kind_ok(
                    syms[n],
                    kf,
                ) && lookup_tier_spec(syms[n], q) is Some && !(exists|k: int| 0 <= k < h.len() && #[trigger] h[k].idx == n)
                    ==> h.len() == limit && forall|k: int|
                    0 <= k < h.len() ==> hit_before(
                        #[trigger] h[k],
                        SymbolHit { tier: lookup_tier_spec(syms[n], q)->0, idx: n as usize },
                    )
        }),
{
    let q = lowercase(query);
    let kf = match kind {
        Some(k) => kind_for_word(ascii_lower_seq(k)),
        None => None,
    };
    let h = lookup_hits(syms, query, kind, limit);
    if trim(query).len() > 0 && limit > 0 && (kind is None || kf is Some) {
        let c = lookup_candidates(syms, q, kf);
        let s = sorted(c);
        lemma_candidates_increasing(syms, q, kf);
        crate::sort::lemma_sorted_ordered(c);
        crate::sort::lemma_sorted_stable(c, |x: SymbolHit| x.idx as int);
        crate::sort::lemma_sorted_all(c, |x: SymbolHit| true);
        assert(h == take_at_most(s, limit));
        assert forall|i: int, j: int| #![trigger h[i], h[j]] 0 <= i < j < h.len() implies hit_before(h[i], h[j]) by {
            assert(h[i] == s[i] && h[j] == s[j]);
        }
        assert forall|n: int|
            #![trigger syms[n]]
            0 <= n < syms.len() && kind_ok(syms[n], kf) && lookup_tier_spec(syms[n], q) is Some && !(exists|k: int|
                0 <= k < h.len() && #[trigger] h[k].idx == n) implies h.len() == limit && forall|k: int|
            0 <= k < h.len() ==> hit_before(
                #[trigger] h[k],
                SymbolHit { tier: lookup_tier_spec(syms[n], q)->0, idx: n as usize },
            ) by {
            let x = SymbolHit { tier: lookup_tier_spec(syms[n], q)->0, idx: n as usize };
            lemma_candidates_hold(syms, q, kf, n);
            let k0 = choose|k: int| 0 <= k < c.len() && #[trigger] c[k] == x;
            crate::sort::lemma_sorted_contains(c, k0);
            let j = choose|j: int| 0 <= j < s.len() && s[j] == c[k0];
            if j < h.len() {
                assert(h[j] == s[j]);
                assert(h[j].idx == n);
                assert(false);
            }
            assert(h.len() == limit);
            assert forall|k: int| 0 <= k < h.len() implies hit_before(#[trigger] h[k], x) by {
                assert(h[k] == s[k]);
                assert(s[k].ranks_le(&s[j]));
            }
        }
    }
}

/// Symbols whose name or doc matches the query, best first, at most `limit`;
/// `kind`, when given, must name a kind and keeps only that kind.
pub fn lookup<'a>(index: &'a ApiIndex, query: &str, kind: Option<&str>, limit: usize) -> (r: Vec<&'a ApiSymbol>)
    ensures
        r@.len() == lookup_hits(index.symbols@, query@, crate::index::opt_str_view(kind), limit as nat).len(),
        forall|k: int| 0 <= k < r@.len() ==> {
            let h = #[trigger] lookup_hits(index.symbols@, query@, crate::index::opt_str_view(kind), limit as nat)[k];
            h.idx < index.symbols@.len() && *r@[k] == index.symbols@[h.idx as int]
        },
{
    let qc = chars_of(query);
    if trim_chars(&qc).len() == 0 || limit == 0 {
        return Vec::new();
    }
    let kf: Option<SymbolKind> = match kind {
        Some(k) => match SymbolKind::parse_filter(k) {
            Some(k) => Some(k),
            None => return Vec::new(),
        },
        None => None,
    };
    let q = lower_chars(&qc);
    let mut cands: Vec<SymbolHit> = Vec::new();
    let mut i: usize = 0;
    while i < index.symbols.len()
        invariant
            i <= index.symbols@.len(),
            q@ == lowercase(query@),
            cands@ == lookup_candidates(index.symbols@.take(i as int), q@, kf),
        decreases index.symbols@.len() - i,
    {
        let s = &index.symbols[i];
        proof {
            assert(index.symbols@.take(i + 1).drop_last() =~= index.symbols@.take(i as int));
            assert(index.symbols@.take(i + 1).last() == *s);
        }
        let ok = match kf {
            Some(k) => s.kind == k,
            None => true,
        };
        if ok {
            match lookup_tier(s, &q) {
                Some(t) => {
                    cands.push(SymbolHit { tier: t, idx: i });
                },
                None => {},
            }
        }
        i += 1;
    }
    assert(index.symbols@.take(index.symbols@.len() as int) =~= index.symbols@);
    proof {
        assert forall|k: int| 0 <= k < cands@.len() implies (#[trigger] cands@[k]).idx < index.symbols@.len() by {
            lemma_lookup_candidates_idx(index.symbols@, q@, kf, k);
        }
        crate::sort::lemma_sorted_all(cands@, |h: SymbolHit| h.idx < index.symbols@.len());
    }
    let ghost hits = lookup_hits(index.symbols@, query@, crate::index::opt_str_view(kind), limit as nat);
    let mut sorted_hits = sort_ranked(cands);
    if limit < sorted_hits.len() {
        sorted_hits.truncate(limit);
    }
    assert(sorted_hits@ == hits);
    let mut r: Vec<&'a ApiSymbol> = Vec::new();
    let mut k: usize = 0;
    while k < sorted_hits.len()
        invariant
            k <= sorted_hits@.len(),
            sorted_hits@ == hits,
            forall|j: int| 0 <= j < sorted_hits@.len() ==> (#[trigger] sorted_hits@[j]).idx < index.symbols@.len(),
            r@.len() == k,
            forall|j: int| 0 <= j < k ==> *r@[j] == index.symbols@[(#[trigger] hits[j]).idx as int],
        decreases sorted_hits@.len() - k,
    {
        r.push(&index.symbols[sorted_hits[k].idx]);
        k += 1;
    }
    r
}


// ---------------------------------------------------------------------------
// Methods of a type.
// ---------------------------------------------------------------------------
/// The symbol's owner is `name`.
pub open spec fn owner_is(s: ApiSymbol, name: Seq<char>) -> bool {
    match s.owner {
        Some(o) => o@ == name,
        None => false,
    }
}

/// The inherent methods of a type, in index order.
pub open spec fn inherent_of(syms: Seq<ApiSymbol>, ty: Seq<char>) -> Seq<ApiSymbol> {
    owned_by(syms, SymbolKind::Method, ty)
}

/// The symbols of a kind owned by `name`, in index order.
pub open spec fn owned_by(syms: Seq<ApiSymbol>, k: SymbolKind, name: Seq<char>) -> Seq<ApiSymbol> {
    syms.filter(|s: ApiSymbol| s.kind == k && owner_is(s, name))
}

/// The methods declared by a trait, in index order.
pub open spec fn trait_methods_of(syms: Seq<ApiSymbol>, tn: Seq<char>) -> Seq<ApiSymbol> {
    owned_by(syms, SymbolKind::TraitMethod, tn)
}

/// A string ordered as `String` orders.
#[derive(Clone, Debug)]
pub struct StrKey {
    pub s: String,
}

impl Ranked for StrKey {
    open spec fn ranks_le(&self, other: &Self) -> bool {
        crate::text::lex_le(self.s@, other.s@)
    }

    fn le(&self, other: &Self) -> (r: bool) {
        crate::text::lex_le_exec(&chars_of(self.s.as_str()), &chars_of(other.s.as_str()))
    }
}

/// The views of the keys, with runs of equal neighbours reduced to one (what
/// `Vec::dedup` keeps).
pub open spec fn dedup_views(s: Seq<StrKey>) -> Seq<Seq<char>>
    decreases s.len(),
{
    if s.len() == 0 {
        seq![]
    } else {
        let p = dedup_views(s.drop_last());
        if p.len() > 0 && p.last() == s.last().s@ {
            p
        } else {
            p.push(s.last().s@)
        }
    }
}

/// The strings of the keys.
pub open spec fn key_views(s: Seq<StrKey>) -> Seq<Seq<char>> {
    s.map_values(|k: StrKey| k.s@)
}

/// `s` with `x` inserted before the first string that `x` strictly precedes.
pub open spec fn insert_lex(s: Seq<Seq<char>>, x: Seq<char>) -> Seq<Seq<char>>
    decreases s.len(),
{
    if s.len() == 0 {
        seq![x]
    } else if crate::text::lex_le(s[0], x) {
        seq![s[0]] + insert_lex(s.drop_first(), x)
    } else {
        seq![x] + s
    }
}

/// Strings sorted in `String` order (stable insertion sort).
pub open spec fn sort_lex(s: Seq<Seq<char>>) -> Seq<Seq<char>>
    decreases s.len(),
{
    if s.len() == 0 {
        seq![]
    } else {
        insert_lex(sort_lex(s.drop_last()), s.last())
    }
}

/// `s` with runs of equal neighbours reduced to one.
pub open spec fn dedup_seqs(s: Seq<Seq<char>>) -> Seq<Seq<char>>
    decreases s.len(),
{
    if s.len() == 0 {
        seq![]
    } else {
        let p = dedup_seqs(s.drop_last());
        if p.len() > 0 && p.last() == s.last() {
            p
        } else {
            p.push(s.last())
        }
    }
}

/// Where `insert_lex` places `x`.
pub open spec fn insert_lex_pos(s: Seq<Seq<char>>, x: Seq<char>) -> nat
    decreases s.len(),
{
    if s.len() == 0 {
        0
    } else if crate::text::lex_le(s[0], x) {
        1 + insert_lex_pos(s.drop_first(), x)
    } else {
        0
    }
}

proof fn lemma_insert_lex(s: Seq<Seq<char>>, x: Seq<char>)
    ensures
        insert_lex_pos(s, x) <= s.len(),
        insert_lex(s, x) == s.insert(insert_lex_pos(s, x) as int, x),
        forall|k: int| 0 <= k < insert_lex_pos(s, x) ==> crate::text::lex_le(#[trigger] s[k], x),
        insert_lex_pos(s, x) < s.len() ==> !crate::text::lex_le(s[insert_lex_pos(s, x) as int], x),
    decreases s.len(),
{
    if s.len() > 0 {
        if crate::text::lex_le(s[0], x) {
            lemma_insert_lex(s.drop_first(), x);
            let p = insert_lex_pos(s.drop_first(), x);
            assert(seq![s[0]] + s.drop_first().insert(p as int, x) =~= s.insert(p as int + 1, x));
            assert forall|k: int| 0 <= k < insert_lex_pos(s, x) implies crate::text::lex_le(#[trigger] s[k], x) by {
                if k > 0 {
                    assert(s[k] == s.drop_first()[k - 1]);
                }
            }
        } else {
            assert(seq![x] + s =~= s.insert(0, x));
        }
    } else {
        assert(seq![x] =~= s.insert(0, x));
    }
}

/// Sorting strings orders them and keeps exactly the strings given.
pub proof fn lemma_sort_lex(s: Seq<Seq<char>>)
    ensures
        sort_lex(s).len() == s.len(),
        forall|i: int, j: int|
            #![trigger sort_lex(s)[i], sort_lex(s)[j]]
            0 <= i < j < sort_lex(s).len() ==> crate::text::lex_le(sort_lex(s)[i], sort_lex(s)[j]),
        forall|x: Seq<char>| sort_lex(s).contains(x) <==> s.contains(x),
    decreases s.len(),
{
    if s.len() > 0 {
        let s0 = s.drop_last();
        let x = s.last();
        lemma_sort_lex(s0);
        let p = sort_lex(s0);
        lemma_insert_lex(p, x);
        let k = insert_lex_pos(p, x) as int;
        let r = sort_lex(s);
        assert(r == p.insert(k, x));
        if k < p.len() {
            crate::text::lemma_lex_total(p[k], x);
        }
        assert forall|i: int, j: int| #![trigger r[i], r[j]] 0 <= i < j < r.len() implies crate::text::lex_le(r[i], r[j]) by {
            if j < k {
                assert(r[i] == p[i] && r[j] == p[j]);
            } else if j == k {
                assert(r[i] == p[i] && r[j] == x);
            } else if i < k {
                assert(r[i] == p[i] && r[j] == p[j - 1]);
                if k < j - 1 {
                    assert(crate::text::lex_le(p[k], p[j - 1]));
                    crate::text::lemma_lex_trans(x, p[k], p[j - 1]);
                }
                crate::text::lemma_lex_trans(p[i], x, p[j - 1]);
            } else if i == k {
                assert(r[i] == x && r[j] == p[j - 1]);
                if k < j - 1 {
                    assert(crate::text::lex_le(p[k], p[j - 1]));
                    crate::text::lemma_lex_trans(x, p[k], p[j - 1]);
                }
            } else {
                assert(r[i] == p[i - 1] && r[j] == p[j - 1]);
            }
        }
        assert forall|y: Seq<char>| r.contains(y) <==> s.contains(y) by {
            if r.contains(y) {
                let i = choose|i: int| 0 <= i < r.len() && r[i] == y;
                if i < k {
                    assert(p[i] == y);
                    assert(p.contains(y));
                    assert(s0.contains(y));
                    let m = choose|m: int| 0 <= m < s0.len() && s0[m] == y;
                    assert(s0[m] == s[m]);
                    assert(s.contains(y));
                } else if i == k {
                    assert(s[s.len() - 1] == y);
                } else {
                    assert(p[i - 1] == y);
                    assert(p.contains(y));
                    assert(s0.contains(y));
                    let m = choose|m: int| 0 <= m < s0.len() && s0[m] == y;
                    assert(s0[m] == s[m]);
                    assert(s.contains(y));
                }
            }
            if s.contains(y) {
                let m = choose|m: int| 0 <= m < s.len() && s[m] == y;
                if m == s.len() - 1 {
                    assert(r[k] == y);
                } else {
                    assert(s0[m] == y);
                    assert(s0.contains(y));
                    let i = choose|i: int| 0 <= i < p.len() && p[i] == y;
                    if i < k {
                        assert(r[i] == y);
                    } else {
                        assert(r[i + 1] == y);
                    }
                }
            }
        }
    }
}

/// Reducing runs of equal neighbours in ordered strings leaves them in
/// strictly ascending order and keeps exactly the strings given.
pub proof fn lemma_dedup_seqs_ordered(s: Seq<Seq<char>>)
    requires
        forall|i: int, j: int| #![trigger s[i], s[j]] 0 <= i < j < s.len() ==> crate::text::lex_le(s[i], s[j]),
    ensures
        ({
            let d = dedup_seqs(s);
            &&& s.len() > 0 ==> d.len() > 0 && d.last() == s.last()
            &&& forall|i: int, j: int|
                #![trigger d[i], d[j]]
                0 <= i < j < d.len() ==> crate::text::lex_le(d[i], d[j]) && d[i] != d[j]
            &&& forall|x: Seq<char>| d.contains(x) <==> s.contains(x)
        }),
    decreases s.len(),
{
    if s.len() > 0 {
        let s0 = s.drop_last();
        assert forall|i: int, j: int| #![trigger s0[i], s0[j]] 0 <= i < j < s0.len() implies crate::text::lex_le(s0[i], s0[j]) by {
            assert(s0[i] == s[i] && s0[j] == s[j]);
        }
        lemma_dedup_seqs_ordered(s0);
        let p = dedup_seqs(s0);
        let d = dedup_seqs(s);
        let x = s.last();
        if s0.len() > 0 {
            assert(crate::text::lex_le(s[s0.len() - 1], s[s.len() - 1]));
            assert(s0.last() == s[s0.len() - 1]);
        }
        if !(p.len() > 0 && p.last() == x) {
            assert forall|i: int, j: int|
                #![trigger d[i], d[j]]
                0 <= i < j < d.len() implies crate::text::lex_le(d[i], d[j]) && d[i] != d[j] by {
                if j == d.len() - 1 {
                    assert(d[j] == x);
                    assert(d[i] == p[i]);
                    if i < p.len() - 1 {
                        crate::text::lemma_lex_trans(p[i], p[p.len() - 1], x);
                        if p[i] == x {
                            crate::text::lemma_lex_antisym(p[p.len() - 1], x);
                        }
                    }
                } else {
                    assert(d[i] == p[i] && d[j] == p[j]);
                }
            }
        }
        assert forall|y: Seq<char>| d.contains(y) <==> s.contains(y) by {
            if s.contains(y) {
                let m = choose|m: int| 0 <= m < s.len() && s[m] == y;
                if m < s0.len() {
                    assert(s0[m] == y);
                    assert(s0.contains(y));
                    let k = choose|k: int| 0 <= k < p.len() && p[k] == y;
                    assert(d[k] == p[k]);
                } else if p.len() > 0 && p.last() == x {
                    assert(d[p.len() - 1] == y);
                } else {
                    assert(d[d.len() - 1] == y);
                }
            }
            if d.contains(y) {
                let k = choose|k: int| 0 <= k < d.len() && d[k] == y;
                if k < p.len() {
                    assert(p[k] == y);
                    assert(p.contains(y));
                    let m = choose|m: int| 0 <= m < s0.len() && s0[m] == y;
                    assert(s[m] == y);
                } else {
                    assert(s[s.len() - 1] == y);
                }
            }
        }
    }
}

proof fn lemma_insert_key_views(s: Seq<StrKey>, x: StrKey)
    ensures
        key_views(crate::sort::insert_ranked(s, x)) == insert_lex(key_views(s), x.s@),
    decreases s.len(),
{
    if s.len() > 0 {
        assert(key_views(s)[0] == s[0].s@);
        assert(key_views(s).drop_first() =~= key_views(s.drop_first()));
        if s[0].ranks_le(&x) {
            lemma_insert_key_views(s.drop_first(), x);
            assert(key_views(seq![s[0]] + crate::sort::insert_ranked(s.drop_first(), x)) =~= seq![s[0].s@]
                + key_views(crate::sort::insert_ranked(s.drop_first(), x)));
        } else {
            assert(key_views(seq![x] + s) =~= seq![x.s@] + key_views(s));
        }
    } else {
        assert(key_views(seq![x]) =~= seq![x.s@]);
    }
}

/// Sorting keys sorts their strings.
pub proof fn lemma_sorted_key_views(s: Seq<StrKey>)
    ensures
        key_views(sorted(s)) == sort_lex(key_views(s)),
        dedup_views(sorted(s)) == dedup_seqs(sort_lex(key_views(s))),
    decreases s.len(),
{
    if s.len() > 0 {
        lemma_sorted_key_views(s.drop_last());
        assert(key_views(s).drop_last() =~= key_views(s.drop_last()));
        assert(key_views(s).last() == s.last().s@);
        lemma_insert_key_views(sorted(s.drop_last()), s.last());
    }
    lemma_dedup_key_views(sorted(s));
}

proof fn lemma_dedup_key_views(s: Seq<StrKey>)
    ensures
        dedup_views(s) == dedup_seqs(key_views(s)),
    decreases s.len(),
{
    if s.len() > 0 {
        lemma_dedup_key_views(s.drop_last());
        assert(key_views(s).drop_last() =~= key_views(s.drop_last()));
        assert(key_views(s).last() == s.last().s@);
    }
}

/// The trait names of the records for a type, in record order.
pub open spec fn impl_names(impls: Seq<TraitImplRecord>, ty: Seq<char>) -> Seq<StrKey>
    decreases impls.len(),
{
    if impls.len() == 0 {
        seq![]
    } else {
        let p = impl_names(impls.drop_last(), ty);
        if impls.last().for_type@ == ty {
            p.push(StrKey { s: impls.last().trait_name })
        } else {
            p
        }
    }
}

/// The traits implemented for a type: sorted, without repeats.
pub open spec fn traits_of(impls: Seq<TraitImplRecord>, ty: Seq<char>) -> Seq<Seq<char>> {
    dedup_views(sorted(impl_names(impls, ty)))
}

/// `String` order is a total preorder on keys.
proof fn lemma_str_keys_preorder()
    ensures
        crate::sort::total_preorder::<StrKey>(),
{
    assert forall|a: StrKey, b: StrKey| #[trigger] a.ranks_le(&b) || b.ranks_le(&a) by {
        crate::text::lemma_lex_total(a.s@, b.s@);
    }
    assert forall|a: StrKey, b: StrKey, c: StrKey| #[trigger] a.ranks_le(&b) && #[trigger] b.ranks_le(&c) implies a.ranks_le(
        &c,
    ) by {
        crate::text::lemma_lex_trans(a.s@, b.s@, c.s@);
    }
}

proof fn lemma_impl_names_are(impls: Seq<TraitImplRecord>, ty: Seq<char>, x: Seq<char>)
    ensures
        (exists|i: int| 0 <= i < impl_names(impls, ty).len() && #[trigger] impl_names(impls, ty)[i].s@ == x) <==> (exists|
            r: int,
        | 0 <= r < impls.len() && (#[trigger] impls[r]).for_type@ == ty && impls[r].trait_name@ == x),
    decreases impls.len(),
{
    if impls.len() > 0 {
        let p = impl_names(impls.drop_last(), ty);
        let k = impl_names(impls, ty);
        lemma_impl_names_are(impls.drop_last(), ty, x);
        if exists|i: int| 0 <= i < k.len() && #[trigger] k[i].s@ == x {
            let i = choose|i: int| 0 <= i < k.len() && #[trigger] k[i].s@ == x;
            if i < p.len() {
                assert(k[i] == p[i]);
                let r = choose|r: int|
                    0 <= r < impls.drop_last().len() && (#[trigger] impls.drop_last()[r]).for_type@ == ty
                        && impls.drop_last()[r].trait_name@ == x;
                assert(impls[r] == impls.drop_last()[r]);
            } else {
                assert(impls[impls.len() - 1].for_type@ == ty);
            }
        }
        if exists|r: int| 0 <= r < impls.len() && (#[trigger] impls[r]).for_type@ == ty && impls[r].trait_name@ == x {
            let r = choose|r: int| 0 <= r < impls.len() && (#[trigger] impls[r]).for_type@ == ty && impls[r].trait_name@ == x;
            if r < impls.len() - 1 {
                assert(impls.drop_last()[r] == impls[r]);
                let i = choose|i: int| 0 <= i < p.len() && #[trigger] p[i].s@ == x;
                assert(k[i] == p[i]);
            } else {
                assert(k[k.len() - 1].s@ == x);
            }
        }
    }
}

proof fn lemma_dedup_ordered(s: Seq<StrKey>)
    requires
        crate::sort::ordered(s),
    ensures
        ({
            let d = dedup_views(s);
            &&& s.len() > 0 ==> d.len() > 0 && d.last() == s.last().s@
            &&& forall|i: int, j: int|
                #![trigger d[i], d[j]]
                0 <= i < j < d.len() ==> crate::text::lex_le(d[i], d[j]) && d[i] != d[j]
            &&& forall|x: Seq<char>|
                d.contains(x) <==> (exists|i: int| 0 <= i < s.len() && #[trigger] s[i].s@ == x)
        }),
    decreases s.len(),
{
    if s.len() > 0 {
        let s0 = s.drop_last();
        assert forall|i: int, j: int| #![trigger s0[i], s0[j]] 0 <= i < j < s0.len() implies s0[i].ranks_le(&s0[j]) by {
            assert(s0[i] == s[i] && s0[j] == s[j]);
        }
        lemma_dedup_ordered(s0);
        let p = dedup_views(s0);
        let d = dedup_views(s);
        let x = s.last().s@;
        if p.len() > 0 && p.last() == x {
            assert forall|y: Seq<char>| d.contains(y) <==> (exists|i: int| 0 <= i < s.len() && #[trigger] s[i].s@ == y) by {
                if exists|i: int| 0 <= i < s.len() && #[trigger] s[i].s@ == y {
                    let i = choose|i: int| 0 <= i < s.len() && #[trigger] s[i].s@ == y;
                    if i < s0.len() {
                        assert(s0[i] == s[i]);
                    } else {
                        assert(p[p.len() - 1] == y);
                    }
                }
                if d.contains(y) {
                    let i = choose|i: int| 0 <= i < s0.len() && #[trigger] s0[i].s@ == y;
                    assert(s[i] == s0[i]);
                }
            }
        } else {
            if s0.len() > 0 {
                assert(s[s0.len() - 1].ranks_le(&s[s.len() - 1]));
                assert(s0.last() == s[s0.len() - 1]);
            }
            assert forall|i: int, j: int|
                #![trigger d[i], d[j]]
                0 <= i < j < d.len() implies crate::text::lex_le(d[i], d[j]) && d[i] != d[j] by {
                if j == d.len() - 1 {
                    assert(d[j] == x);
                    assert(d[i] == p[i]);
                    if i < p.len() - 1 {
                        assert(crate::text::lex_le(p[i], p[p.len() - 1]));
                        crate::text::lemma_lex_trans(p[i], p[p.len() - 1], x);
                        if p[i] == x {
                            crate::text::lemma_lex_antisym(p[p.len() - 1], x);
                        }
                    }
                } else {
                    assert(d[i] == p[i] && d[j] == p[j]);
                }
            }
            assert forall|y: Seq<char>| d.contains(y) <==> (exists|i: int| 0 <= i < s.len() && #[trigger] s[i].s@ == y) by {
                if exists|i: int| 0 <= i < s.len() && #[trigger] s[i].s@ == y {
                    let i = choose|i: int| 0 <= i < s.len() && #[trigger] s[i].s@ == y;
                    if i < s0.len() {
                        assert(s0[i] == s[i]);
                        assert(s0[i].s@ == y);
                        assert(p.contains(y));
                        let k = choose|k: int| 0 <= k < p.len() && p[k] == y;
                        assert(d[k] == p[k]);
                    } else {
                        assert(d[d.len() - 1] == y);
                    }
                }
                if d.contains(y) {
                    let k = choose|k: int| 0 <= k < d.len() && d[k] == y;
                    if k < p.len() {
                        assert(p[k] == d[k]);
                        assert(p.contains(y));
                        let i = choose|i: int| 0 <= i < s0.len() && #[trigger] s0[i].s@ == y;
                        assert(s[i] == s0[i]);
                    } else {
                        assert(s[s.len() - 1].s@ == y);
                    }
                }
            }
        }
    }
}

/// A type's traits are listed in strictly ascending `String` order, and they
/// are exactly the trait names of the impl records for the type.
pub proof fn law_traits_sorted_and_exact(impls: Seq<TraitImplRecord>, ty: Seq<char>)
    ensures
        ({
            let t = traits_of(impls, ty);
            &&& forall|i: int, j: int|
                #![trigger t[i], t[j]]
                0 <= i < j < t.len() ==> crate::text::lex_le(t[i], t[j]) && t[i] != t[j]
            &&& forall|x: Seq<char>|
                t.contains(x) <==> (exists|r: int|
                    0 <= r < impls.len() && (#[trigger] impls[r]).for_type@ == ty && impls[r].trait_name@ == x)
        }),
{
    let k = impl_names(impls, ty);
    let s = sorted(k);
    lemma_str_keys_preorder();
    crate::sort::lemma_sorted_ordered(k);
    lemma_dedup_ordered(s);
    assert forall|x: Seq<char>|
        traits_of(impls, ty).contains(x) <==> (exists|r: int|
            0 <= r < impls.len() && (#[trigger] impls[r]).for_type@ == ty && impls[r].trait_name@ == x) by {
        lemma_impl_names_are(impls, ty, x);
        if exists|i: int| 0 <= i < k.len() && #[trigger] k[i].s@ == x {
            let i = choose|i: int| 0 <= i < k.len() && #[trigger] k[i].s@ == x;
            crate::sort::lemma_sorted_contains(k, i);
            let j = choose|j: int| 0 <= j < s.len() && s[j] == k[i];
            assert(s[j].s@ == x);
        }
        if exists|j: int| 0 <= j < s.len() && #[trigger] s[j].s@ == x {
            let j = choose|j: int| 0 <= j < s.len() && #[trigger] s[j].s@ == x;
            crate::sort::lemma_sorted_all(k, |e: StrKey| exists|i: int| 0 <= i < k.len() && k[i] == e);
            let e = s[j];
            assert(exists|i: int| 0 <= i < k.len() && k[i] == e);
            let i = choose|i: int| 0 <= i < k.len() && k[i] == e;
            assert(k[i].s@ == x);
        }
    }
}

/// Some symbol is owned by or named `ty`.
pub open spec fn type_known_spec(syms: Seq<ApiSymbol>, ty: Seq<char>) -> bool {
    exists|i: int| 0 <= i < syms.len() && (owner_is(#[trigger] syms[i], ty) || syms[i].name@ == ty)
}

/// The first line of a doc, or nothing.
pub open spec fn one_line_spec(doc: Seq<char>) -> Seq<char> {
    if crate::text::lines(doc).len() > 0 {
        crate::text::lines(doc)[0]
    } else {
        Seq::<char>::empty()
    }
}

/// The listing line of a method: signature and first doc line.
pub open spec fn method_line(s: ApiSymbol) -> Seq<char> {
    "- `"@ + s.signature@ + "` — "@ + one_line_spec(s.doc@) + "\n"@
}

/// The listing lines of several methods.
pub open spec fn method_lines(ms: Seq<ApiSymbol>) -> Seq<char>
    decreases ms.len(),
{
    if ms.len() == 0 {
        Seq::<char>::empty()
    } else {
        method_lines(ms.drop_last()) + method_line(ms.last())
    }
}

/// Method names separated by `, `.
pub open spec fn joined_names(ms: Seq<ApiSymbol>) -> Seq<char>
    decreases ms.len(),
{
    if ms.len() == 0 {
        Seq::<char>::empty()
    } else if ms.len() == 1 {
        ms[0].name@
    } else {
        joined_names(ms.drop_last()) + ", "@ + ms.last().name@
    }
}

/// The traits kept by the optional filter (compared in lowercase).
pub open spec fn selected_traits(traits: Seq<Seq<char>>, filter: Option<Seq<char>>) -> Seq<Seq<char>> {
    match filter {
        Some(f) => traits.filter(|tn: Seq<char>| lowercase(tn) == lowercase(f)),
        None => traits,
    }
}

/// The methods whose lowercase name contains the lowercase name filter;
/// all of them without a filter.
pub open spec fn name_filtered(ms: Seq<ApiSymbol>, nf: Option<Seq<char>>) -> Seq<ApiSymbol> {
    match nf {
        Some(f) => ms.filter(|s: ApiSymbol| has_infix(lowercase(s.name@), lowercase(f))),
        None => ms,
    }
}

/// The methods of a trait listed under the name filter.
pub open spec fn listed_trait_methods(syms: Seq<ApiSymbol>, tn: Seq<char>, nf: Option<Seq<char>>) -> Seq<ApiSymbol> {
    name_filtered(trait_methods_of(syms, tn), nf)
}

/// Number of listed methods of the given traits.
pub open spec fn trait_method_total(syms: Seq<ApiSymbol>, tns: Seq<Seq<char>>, nf: Option<Seq<char>>) -> nat
    decreases tns.len(),
{
    if tns.len() == 0 {
        0
    } else {
        trait_method_total(syms, tns.drop_last(), nf) + listed_trait_methods(syms, tns.last(), nf).len()
    }
}

/// The section of one trait: its heading, then the names on one line when
/// collapsed, else one line per method.
pub open spec fn trait_section(syms: Seq<ApiSymbol>, tn: Seq<char>, nf: Option<Seq<char>>, collapse: bool) -> Seq<char> {
    let ms = listed_trait_methods(syms, tn, nf);
    "\n## via "@ + tn + "\n"@ + (if collapse {
        joined_names(ms) + "\n"@
    } else {
        method_lines(ms)
    })
}

/// The sections of several traits.
pub open spec fn trait_sections(syms: Seq<ApiSymbol>, tns: Seq<Seq<char>>, nf: Option<Seq<char>>, collapse: bool) -> Seq<char>
    decreases tns.len(),
{
    if tns.len() == 0 {
        Seq::<char>::empty()
    } else {
        trait_sections(syms, tns.drop_last(), nf, collapse) + trait_section(syms, tns.last(), nf, collapse)
    }
}

/// The "no such type" answer of `methods_for_type`.
pub open spec fn no_type_text(ty: Seq<char>) -> Seq<char> {
    "No type '"@ + ty + "' in the GPUI index. Try gpui_symbol / gpui_search first."@
}

/// The text of `methods_for_type_filtered`: `filter` selects one trait,
/// `name_filter` keeps the methods whose name contains it.
pub open spec fn methods_text(
    syms: Seq<ApiSymbol>,
    impls: Seq<TraitImplRecord>,
    ty: Seq<char>,
    filter: Option<Seq<char>>,
    name_filter: Option<Seq<char>>,
) -> Seq<char> {
    let traits = traits_of(impls, ty);
    if inherent_of(syms, ty).len() == 0 && traits.len() == 0 && !type_known_spec(syms, ty) {
        no_type_text(ty)
    } else {
        let inherent = name_filtered(inherent_of(syms, ty), name_filter);
        let sel = selected_traits(traits, filter);
        let collapse = inherent.len() + trait_method_total(syms, sel, name_filter) > 200 && filter is None;
        let head = if filter is None {
            "## Inherent\n"@ + (if inherent.len() == 0 {
                "(none)\n"@
            } else {
                method_lines(inherent)
            })
        } else {
            Seq::<char>::empty()
        };
        let out = head + trait_sections(syms, sel, name_filter, collapse) + (if collapse {
            "\nPass trait_filter to see full signatures for one trait.\n"@
        } else {
            Seq::<char>::empty()
        });
        if out.len() == 0 {
            "No methods for '"@ + ty + "' with that trait filter."@
        } else {
            out
        }
    }
}


/// Whether the symbol's owner is `name`.
fn owner_is_exec(s: &ApiSymbol, name: &Vec<char>) -> (r: bool)
    ensures
        r == owner_is(*s, name@),
{
    match &s.owner {
        Some(o) => chars_eq(&chars_of(o.as_str()), name),
        None => false,
    }
}

/// The symbols of a kind owned by `name`, in index order.
fn owned_symbols<'a>(syms: &'a Vec<ApiSymbol>, k: SymbolKind, name: &Vec<char>) -> (r: Vec<&'a ApiSymbol>)
    ensures
        r@.len() == owned_by(syms@, k, name@).len(),
        forall|j: int| 0 <= j < r@.len() ==> *r@[j] == #[trigger] owned_by(syms@, k, name@)[j],
{
    let ghost p = |s: ApiSymbol| s.kind == k && owner_is(s, name@);
    let mut r: Vec<&'a ApiSymbol> = Vec::new();
    let mut i: usize = 0;
    assert(syms@.take(0).filter(p) =~= Seq::<ApiSymbol>::empty());
    while i < syms.len()
        invariant
            i <= syms@.len(),
            p == (|s: ApiSymbol| s.kind == k && owner_is(s, name@)),
            r@.len() == syms@.take(i as int).filter(p).len(),
            forall|j: int| 0 <= j < r@.len() ==> *r@[j] == #[trigger] syms@.take(i as int).filter(p)[j],
        decreases syms@.len() - i,
    {
        let s = &syms[i];
        proof {
            assert(syms@.take(i + 1) =~= syms@.take(i as int).push(*s));
            syms@.take(i as int).lemma_filter_push(*s, p);
        }
        if s.kind == k && owner_is_exec(s, name) {
            r.push(s);
        }
        i += 1;
    }
    assert(syms@.take(syms@.len() as int) =~= syms@);
    r
}

/// The traits implemented for a type, sorted, without repeats.
fn traits_implemented(index: &ApiIndex, ty: &Vec<char>) -> (r: Vec<String>)
    ensures
        r@.map_values(|x: String| x@) == traits_of(index.trait_impls@, ty@),
{
    let mut keys: Vec<StrKey> = Vec::new();
    let mut i: usize = 0;
    while i < index.trait_impls.len()
        invariant
            i <= index.trait_impls@.len(),
            keys@ == impl_names(index.trait_impls@.take(i as int), ty@),
        decreases index.trait_impls@.len() - i,
    {
        let rec = &index.trait_impls[i];
        proof {
            assert(index.trait_impls@.take(i + 1).drop_last() =~= index.trait_impls@.take(i as int));
            assert(index.trait_impls@.take(i + 1).last() == *rec);
        }
        if chars_eq(&chars_of(rec.for_type.as_str()), ty) {
            keys.push(StrKey { s: rec.trait_name.clone() });
        }
        i += 1;
    }
    assert(index.trait_impls@.take(index.trait_impls@.len() as int) =~= index.trait_impls@);
    let sorted_keys = sort_ranked(keys);
    let mut r: Vec<String> = Vec::new();
    let mut k: usize = 0;
    assert(sorted_keys@.take(0) =~= Seq::<StrKey>::empty());
    while k < sorted_keys.len()
        invariant
            k <= sorted_keys@.len(),
            r@.map_values(|x: String| x@) == dedup_views(sorted_keys@.take(k as int)),
        decreases sorted_keys@.len() - k,
    {
        let cur = &sorted_keys[k].s;
        proof {
            assert(sorted_keys@.take(k + 1).drop_last() =~= sorted_keys@.take(k as int));
            assert(sorted_keys@.take(k + 1).last() == sorted_keys@[k as int]);
        }
        let same = r.len() > 0 && chars_eq(&chars_of(r[r.len() - 1].as_str()), &chars_of(cur.as_str()));
        if !same {
            let ghost before = r@;
            r.push(cur.clone());
            assert(r@.map_values(|x: String| x@) =~= before.map_values(|x: String| x@).push(cur@));
        }
        k += 1;
    }
    assert(sorted_keys@.take(sorted_keys@.len() as int) =~= sorted_keys@);
    r
}

/// Whether some symbol is owned by or named `ty`.
fn type_known(index: &ApiIndex, ty: &Vec<char>) -> (r: bool)
    ensures
        r == type_known_spec(index.symbols@, ty@),
{
    let mut i: usize = 0;
    while i < index.symbols.len()
        invariant
            i <= index.symbols@.len(),
            forall|j: int| 0 <= j < i ==> !(owner_is(#[trigger] index.symbols@[j], ty@) || index.symbols@[j].name@ == ty@),
        decreases index.symbols@.len() - i,
    {
        let s = &index.symbols[i];
        if owner_is_exec(s, ty) || chars_eq(&chars_of(s.name.as_str()), ty) {
            return true;
        }
        i += 1;
    }
    false
}

/// The first line of a doc, or nothing.
fn one_line(doc: &str) -> (r: Vec<char>)
    ensures
        r@ == one_line_spec(doc@),
{
    let ls = crate::text::split_lines(&chars_of(doc));
    if ls.len() > 0 {
        assert(crate::text::views(ls@)[0] == ls@[0]@);
        ls[0].clone()
    } else {
        Vec::new()
    }
}

/// Appends the listing line of a method.
fn push_method_line(out: &mut Vec<char>, s: &ApiSymbol)
    ensures
        final(out)@ == old(out)@ + method_line(*s),
{
    let ghost start = out@;
    crate::text::push_str_chars(out, "- `");
    crate::text::push_str_chars(out, s.signature.as_str());
    crate::text::push_str_chars(out, "` — ");
    let l = one_line(s.doc.as_str());
    crate::text::push_chars(out, &l);
    crate::text::push_str_chars(out, "\n");
    assert(out@ =~= start + method_line(*s));
}


/// Appends the listing lines of the methods.
fn push_method_lines(out: &mut Vec<char>, ms: &Vec<&ApiSymbol>, Ghost(spec_ms): Ghost<Seq<ApiSymbol>>)
    requires
        ms@.len() == spec_ms.len(),
        forall|j: int| 0 <= j < ms@.len() ==> *ms@[j] == #[trigger] spec_ms[j],
    ensures
        final(out)@ == old(out)@ + method_lines(spec_ms),
{
    let ghost start = out@;
    let mut i: usize = 0;
    assert(spec_ms.take(0) =~= Seq::<ApiSymbol>::empty());
    assert(start + method_lines(Seq::<ApiSymbol>::empty()) =~= start);
    while i < ms.len()
        invariant
            i <= ms@.len(),
            ms@.len() == spec_ms.len(),
            forall|j: int| 0 <= j < ms@.len() ==> *ms@[j] == #[trigger] spec_ms[j],
            out@ == start + method_lines(spec_ms.take(i as int)),
        decreases ms@.len() - i,
    {
        proof {
            assert(spec_ms.take(i + 1).drop_last() =~= spec_ms.take(i as int));
            assert(spec_ms.take(i + 1).last() == spec_ms[i as int]);
        }
        push_method_line(out, ms[i]);
        proof {
            vstd::seq_lib::lemma_concat_associative(start, method_lines(spec_ms.take(i as int)), method_line(spec_ms[i as int]));
        }
        i += 1;
    }
    assert(spec_ms.take(ms@.len() as int) =~= spec_ms);
}

/// Appends the method names separated by `, `.
fn push_joined_names(out: &mut Vec<char>, ms: &Vec<&ApiSymbol>, Ghost(spec_ms): Ghost<Seq<ApiSymbol>>)
    requires
        ms@.len() == spec_ms.len(),
        forall|j: int| 0 <= j < ms@.len() ==> *ms@[j] == #[trigger] spec_ms[j],
    ensures
        final(out)@ == old(out)@ + joined_names(spec_ms),
{
    let ghost start = out@;
    let mut i: usize = 0;
    assert(spec_ms.take(0) =~= Seq::<ApiSymbol>::empty());
    assert(start + joined_names(Seq::<ApiSymbol>::empty()) =~= start);
    while i < ms.len()
        invariant
            i <= ms@.len(),
            ms@.len() == spec_ms.len(),
            forall|j: int| 0 <= j < ms@.len() ==> *ms@[j] == #[trigger] spec_ms[j],
            out@ == start + joined_names(spec_ms.take(i as int)),
        decreases ms@.len() - i,
    {
        let ghost before = out@;
        proof {
            assert(spec_ms.take(i + 1).drop_last() =~= spec_ms.take(i as int));
            assert(spec_ms.take(i + 1).last() == spec_ms[i as int]);
        }
        if i > 0 {
            crate::text::push_str_chars(out, ", ");
        }
        crate::text::push_str_chars(out, ms[i].name.as_str());
        proof {
            if i == 0 {
                assert(spec_ms.take(1) =~= seq![spec_ms[0]]);
                assert(out@ =~= start + joined_names(spec_ms.take(1)));
            } else {
                assert(out@ =~= start + (joined_names(spec_ms.take(i as int)) + ", "@ + spec_ms[i as int].name@));
            }
        }
        i += 1;
    }
    assert(spec_ms.take(ms@.len() as int) =~= spec_ms);
}

/// With a trait filter, the traits whose sections are listed are exactly
/// the type's traits (those of its impl records) whose lowercase name equals
/// the lowercase filter.
pub proof fn law_trait_filter_selects_equal_names(impls: Seq<TraitImplRecord>, ty: Seq<char>, f: Seq<char>)
    ensures
        forall|x: Seq<char>|
            selected_traits(traits_of(impls, ty), Some(f)).contains(x) <==> ((exists|r: int|
                0 <= r < impls.len() && (#[trigger] impls[r]).for_type@ == ty && impls[r].trait_name@ == x) && lowercase(x)
                == lowercase(f)),
{
    let t = traits_of(impls, ty);
    let p = |tn: Seq<char>| lowercase(tn) == lowercase(f);
    law_traits_sorted_and_exact(impls, ty);
    assert forall|x: Seq<char>|
        selected_traits(t, Some(f)).contains(x) <==> ((exists|r: int|
            0 <= r < impls.len() && (#[trigger] impls[r]).for_type@ == ty && impls[r].trait_name@ == x) && lowercase(x)
            == lowercase(f)) by {
        let sel = t.filter(p);
        if sel.contains(x) {
            let k = choose|k: int| 0 <= k < sel.len() && sel[k] == x;
            t.lemma_filter_pred(p, k);
            t.lemma_filter_contains_rev(p, x);
        }
        if t.contains(x) && lowercase(x) == lowercase(f) {
            let i = choose|i: int| 0 <= i < t.len() && t[i] == x;
            t.lemma_filter_contains(p, i);
        }
    }
}

proof fn lemma_sections_start(syms: Seq<ApiSymbol>, tns: Seq<Seq<char>>, nf: Option<Seq<char>>, collapse: bool)
    ensures
        trait_sections(syms, tns, nf, collapse).len() > 0 ==> trait_sections(syms, tns, nf, collapse)[0] == '\n',
    decreases tns.len(),
{
    if tns.len() > 0 {
        lemma_sections_start(syms, tns.drop_last(), nf, collapse);
        reveal_strlit("\n## via ");
        let a = trait_sections(syms, tns.drop_last(), nf, collapse);
        let b = trait_section(syms, tns.last(), nf, collapse);
        assert(b[0] == '\n');
        if a.len() > 0 {
            assert((a + b)[0] == a[0]);
        } else {
            assert(a + b =~= b);
        }
    }
}

/// `methods_for_type` answers "No type ..." exactly when the index has no
/// trait impl record for the type and no symbol owned by or named after it,
/// whatever the filters.
pub proof fn law_methods_no_type(
    syms: Seq<ApiSymbol>,
    impls: Seq<TraitImplRecord>,
    ty: Seq<char>,
    filter: Option<Seq<char>>,
    name_filter: Option<Seq<char>>,
)
    ensures
        methods_text(syms, impls, ty, filter, name_filter) == no_type_text(ty) <==> (!(exists|r: int|
            0 <= r < impls.len() && (#[trigger] impls[r]).for_type@ == ty) && !type_known_spec(syms, ty)),
{
    let t = traits_of(impls, ty);
    let inh = inherent_of(syms, ty);
    let pred = |s: ApiSymbol| s.kind == SymbolKind::Method && owner_is(s, ty);
    law_traits_sorted_and_exact(impls, ty);
    if t.len() > 0 {
        assert(t.contains(t[0]));
    }
    if exists|r: int| 0 <= r < impls.len() && (#[trigger] impls[r]).for_type@ == ty {
        let r = choose|r: int| 0 <= r < impls.len() && (#[trigger] impls[r]).for_type@ == ty;
        assert(t.contains(impls[r].trait_name@));
    }
    if inh.len() > 0 {
        syms.lemma_filter_pred(pred, 0);
        assert(inh.contains(inh[0]));
        syms.lemma_filter_contains_rev(pred, inh[0]);
        let i = choose|i: int| 0 <= i < syms.len() && syms[i] == inh[0];
        assert(owner_is(syms[i], ty));
    }
    let no = no_type_text(ty);
    reveal_strlit("No type '");
    assert(no[0] == 'N');
    assert(no[3] == 't');
    if !(inh.len() == 0 && t.len() == 0 && !type_known_spec(syms, ty)) {
        let inherent = name_filtered(inh, name_filter);
        let sel = selected_traits(t, filter);
        let collapse = inherent.len() + trait_method_total(syms, sel, name_filter) > 200 && filter is None;
        let head = if filter is None {
            "## Inherent\n"@ + (if inherent.len() == 0 {
                "(none)\n"@
            } else {
                method_lines(inherent)
            })
        } else {
            Seq::<char>::empty()
        };
        let tail = if collapse {
            "\nPass trait_filter to see full signatures for one trait.\n"@
        } else {
            Seq::<char>::empty()
        };
        let secs = trait_sections(syms, sel, name_filter, collapse);
        let out = head + secs + tail;
        lemma_sections_start(syms, sel, name_filter, collapse);
        if out.len() == 0 {
            reveal_strlit("No methods for '");
            let m = "No methods for '"@ + ty + "' with that trait filter."@;
            assert(m[3] == 'm');
            assert(methods_text(syms, impls, ty, filter, name_filter) == m);
        } else {
            assert(methods_text(syms, impls, ty, filter, name_filter) == out);
            if filter is None {
                reveal_strlit("## Inherent\n");
                assert(out[0] == head[0]);
                assert(out[0] == '#');
            } else {
                assert(head.len() == 0);
                assert(tail.len() == 0);
                assert(out =~= secs);
                assert(out[0] == '\n');
            }
        }
    }
}

/// The name filter keeps exactly the methods whose lowercase name contains
/// the lowercase filter, in their order.
pub proof fn law_name_filter_keeps_matching(ms: Seq<ApiSymbol>, f: Seq<char>)
    ensures
        ({
            let kept = name_filtered(ms, Some(f));
            &&& forall|k: int| 0 <= k < kept.len() ==> has_infix(lowercase((#[trigger] kept[k]).name@), lowercase(f))
            &&& forall|i: int| 0 <= i < ms.len() && has_infix(lowercase((#[trigger] ms[i]).name@), lowercase(f)) ==> kept.contains(ms[i])
            &&& forall|k: int| 0 <= k < kept.len() ==> ms.contains(#[trigger] kept[k])
        }),
{
    let p = |s: ApiSymbol| has_infix(lowercase(s.name@), lowercase(f));
    let kept = ms.filter(p);
    assert forall|k: int| 0 <= k < kept.len() implies has_infix(lowercase((#[trigger] kept[k]).name@), lowercase(f)) by {
        ms.lemma_filter_pred(p, k);
    }
    assert forall|i: int| 0 <= i < ms.len() && has_infix(lowercase((#[trigger] ms[i]).name@), lowercase(f)) implies kept.contains(ms[i]) by {
        ms.lemma_filter_contains(p, i);
    }
    assert forall|k: int| 0 <= k < kept.len() implies ms.contains(#[trigger] kept[k]) by {
        assert(kept.contains(kept[k]));
        ms.lemma_filter_contains_rev(p, kept[k]);
    }
}

/// The methods whose lowercase name contains the filter `nf` (given in
/// lowercase); all of them without a filter.
fn keep_named<'a>(
    ms: Vec<&'a ApiSymbol>,
    Ghost(spec_ms): Ghost<Seq<ApiSymbol>>,
    nf: &Option<Vec<char>>,
    Ghost(f): Ghost<Option<Seq<char>>>,
) -> (r: Vec<&'a ApiSymbol>)
    requires
        ms@.len() == spec_ms.len(),
        forall|j: int| 0 <= j < ms@.len() ==> *ms@[j] == #[trigger] spec_ms[j],
        match nf {
            Some(v) => f is Some && v@ == lowercase(f->0),
            None => f is None,
        },
    ensures
        r@.len() == name_filtered(spec_ms, f).len(),
        forall|j: int| 0 <= j < r@.len() ==> *r@[j] == #[trigger] name_filtered(spec_ms, f)[j],
{
    match nf {
        None => ms,
        Some(v) => {
            let ghost p = |s: ApiSymbol| has_infix(lowercase(s.name@), lowercase(f->0));
            let mut r: Vec<&'a ApiSymbol> = Vec::new();
            let mut i: usize = 0;
            assert(spec_ms.take(0).filter(p) =~= Seq::<ApiSymbol>::empty());
            while i < ms.len()
                invariant
                    i <= ms@.len(),
                    ms@.len() == spec_ms.len(),
                    forall|j: int| 0 <= j < ms@.len() ==> *ms@[j] == #[trigger] spec_ms[j],
                    f is Some,
                    v@ == lowercase(f->0),
                    p == (|s: ApiSymbol| has_infix(lowercase(s.name@), lowercase(f->0))),
                    r@.len() == spec_ms.take(i as int).filter(p).len(),
                    forall|j: int| 0 <= j < r@.len() ==> *r@[j] == #[trigger] spec_ms.take(i as int).filter(p)[j],
                decreases ms@.len() - i,
            {
                let s = ms[i];
                proof {
                    assert(spec_ms.take(i + 1) =~= spec_ms.take(i as int).push(*s));
                    spec_ms.take(i as int).lemma_filter_push(*s, p);
                }
                if contains_chars(&lower_chars(&chars_of(s.name.as_str())), v) {
                    r.push(s);
                }
                i += 1;
            }
            assert(spec_ms.take(ms@.len() as int) =~= spec_ms);
            r
        }
    }
}

/// The inherent methods and trait methods of a type, as markdown (see
/// `methods_text`, without a name filter).
pub fn methods_for_type(index: &ApiIndex, ty: &str, trait_filter: Option<&str>) -> (r: String)
    ensures
        r@ == methods_text(index.symbols@, index.trait_impls@, ty@, crate::index::opt_str_view(trait_filter), None),
{
    methods_for_type_filtered(index, ty, trait_filter, None)
}

/// The inherent methods and trait methods of a type, as markdown:
/// `trait_filter` selects one trait (in any case), `name_filter` keeps the
/// methods whose lowercase name contains it in lowercase.
pub fn methods_for_type_filtered(index: &ApiIndex, ty: &str, trait_filter: Option<&str>, name_filter: Option<&str>) -> (r: String)
    ensures
        r@ == methods_text(
            index.symbols@,
            index.trait_impls@,
            ty@,
            crate::index::opt_str_view(trait_filter),
            crate::index::opt_str_view(name_filter),
        ),
{
    let tyc = chars_of(ty);
    let ghost syms = index.symbols@;
    let ghost filter = crate::index::opt_str_view(trait_filter);
    let ghost nfv = crate::index::opt_str_view(name_filter);
    let inherent_all = owned_symbols(&index.symbols, SymbolKind::Method, &tyc);
    let trait_names = traits_implemented(index, &tyc);
    let ghost traits = traits_of(index.trait_impls@, ty@);
    if inherent_all.len() == 0 && trait_names.len() == 0 && !type_known(index, &tyc) {
        let mut out: Vec<char> = Vec::new();
        crate::text::push_str_chars(&mut out, "No type '");
        crate::text::push_chars(&mut out, &tyc);
        crate::text::push_str_chars(&mut out, "' in the GPUI index. Try gpui_symbol / gpui_search first.");
        return string_of(&out);
    }
    let filter_l: Option<Vec<char>> = match trait_filter {
        Some(f) => Some(lower_chars(&chars_of(f))),
        None => None,
    };
    let name_l: Option<Vec<char>> = match name_filter {
        Some(f) => Some(lower_chars(&chars_of(f))),
        None => None,
    };
    let inherent = keep_named(inherent_all, Ghost(inherent_of(syms, ty@)), &name_l, Ghost(nfv));
    // The selected traits, with their methods.
    let ghost sel = selected_traits(traits, filter);
    let ghost p = |tn: Seq<char>| lowercase(tn) == lowercase(filter->0);
    let mut sel_names: Vec<Vec<char>> = Vec::new();
    let mut sel_methods: Vec<Vec<&ApiSymbol>> = Vec::new();
    let mut many: usize = inherent.len();
    if many > 200 {
        many = 201;
    }
    let mut t: usize = 0;
    proof {
        assert(traits.take(0).filter(p) =~= Seq::<Seq<char>>::empty());
        assert(traits.take(0) =~= Seq::<Seq<char>>::empty());
    }
    while t < trait_names.len()
        invariant
            t <= trait_names@.len(),
            trait_names@.map_values(|x: String| x@) == traits,
            filter == crate::index::opt_str_view(trait_filter),
            p == (|tn: Seq<char>| lowercase(tn) == lowercase(filter->0)),
            match filter_l {
                Some(v) => filter is Some && v@ == lowercase(filter->0),
                None => filter is None,
            },
            crate::text::views(sel_names@) == (match filter {
                Some(f) => traits.take(t as int).filter(p),
                None => traits.take(t as int),
            }),
            sel_methods@.len() == sel_names@.len(),
            forall|j: int| 0 <= j < sel_methods@.len() ==> {
                &&& (#[trigger] sel_methods@[j])@.len() == listed_trait_methods(syms, sel_names@[j]@, nfv).len()
                &&& forall|m: int| 0 <= m < sel_methods@[j]@.len() ==> *sel_methods@[j]@[m] == #[trigger] listed_trait_methods(syms, sel_names@[j]@, nfv)[m]
            },
            many <= 201,
            syms == index.symbols@,
            nfv == crate::index::opt_str_view(name_filter),
            match name_l {
                Some(v) => nfv is Some && v@ == lowercase(nfv->0),
                None => nfv is None,
            },
            many == (if inherent@.len() + trait_method_total(syms, crate::text::views(sel_names@), nfv) > 200 { 201 } else { inherent@.len() + trait_method_total(syms, crate::text::views(sel_names@), nfv) }),
            inherent@.len() == name_filtered(inherent_of(syms, ty@), nfv).len(),
        decreases trait_names@.len() - t,
    {
        let tn = chars_of(trait_names[t].as_str());
        let ghost tnv = traits[t as int];
        assert(tn@ == tnv);
        proof {
            assert(traits.take(t + 1) =~= traits.take(t as int).push(tnv));
            traits.take(t as int).lemma_filter_push(tnv, p);
        }
        let keep = match &filter_l {
            Some(f) => chars_eq(&lower_chars(&tn), f),
            None => true,
        };
        if keep {
            let ms = keep_named(
                owned_symbols(&index.symbols, SymbolKind::TraitMethod, &tn),
                Ghost(trait_methods_of(syms, tn@)),
                &name_l,
                Ghost(nfv),
            );
            let n = ms.len();
            let ghost before = crate::text::views(sel_names@);
            sel_names.push(tn);
            sel_methods.push(ms);
            proof {
                assert(crate::text::views(sel_names@) =~= before.push(tnv));
                assert(crate::text::views(sel_names@).drop_last() =~= before);
            }
            if many <= 200 {
                if n > 201 - many {
                    many = 201;
                } else {
                    many = many + n;
                    if many > 200 {
                        many = 201;
                    }
                }
            }
        }
        t += 1;
    }
    proof {
        assert(traits.take(trait_names@.len() as int) =~= traits);
        assert(crate::text::views(sel_names@) == sel);
    }
    let collapse = many > 200 && trait_filter.is_none();
    let mut out: Vec<char> = Vec::new();
    if trait_filter.is_none() {
        crate::text::push_str_chars(&mut out, "## Inherent\n");
        if inherent.len() == 0 {
            crate::text::push_str_chars(&mut out, "(none)\n");
        } else {
            push_method_lines(&mut out, &inherent, Ghost(name_filtered(inherent_of(syms, ty@), nfv)));
        }
    }
    let ghost head = out@;
    let mut k: usize = 0;
    assert(sel.take(0) =~= Seq::<Seq<char>>::empty());
    assert(head + trait_sections(syms, Seq::<Seq<char>>::empty(), nfv, collapse) =~= head);
    while k < sel_names.len()
        invariant
            k <= sel_names@.len(),
            crate::text::views(sel_names@) == sel,
            sel_methods@.len() == sel_names@.len(),
            syms == index.symbols@,
            forall|j: int| 0 <= j < sel_methods@.len() ==> {
                &&& (#[trigger] sel_methods@[j])@.len() == listed_trait_methods(syms, sel_names@[j]@, nfv).len()
                &&& forall|m: int| 0 <= m < sel_methods@[j]@.len() ==> *sel_methods@[j]@[m] == #[trigger] listed_trait_methods(syms, sel_names@[j]@, nfv)[m]
            },
            out@ == head + trait_sections(syms, sel.take(k as int), nfv, collapse),
        decreases sel_names@.len() - k,
    {
        let ghost before = out@;
        let ghost tnv = sel[k as int];
        assert(sel_names@[k as int]@ == tnv);
        crate::text::push_str_chars(&mut out, "\n## via ");
        crate::text::push_chars(&mut out, &sel_names[k]);
        crate::text::push_str_chars(&mut out, "\n");
        let ghost mid = out@;
        if collapse {
            push_joined_names(&mut out, &sel_methods[k], Ghost(listed_trait_methods(syms, tnv, nfv)));
            crate::text::push_str_chars(&mut out, "\n");
        } else {
            push_method_lines(&mut out, &sel_methods[k], Ghost(listed_trait_methods(syms, tnv, nfv)));
        }
        proof {
            assert(sel.take(k + 1).drop_last() =~= sel.take(k as int));
            assert(sel.take(k + 1).last() == tnv);
            assert(out@ =~= before + trait_section(syms, tnv, nfv, collapse));
            vstd::seq_lib::lemma_concat_associative(head, trait_sections(syms, sel.take(k as int), nfv, collapse), trait_section(syms, tnv, nfv, collapse));
        }
        k += 1;
    }
    assert(sel.take(sel_names@.len() as int) =~= sel);
    if collapse {
        crate::text::push_str_chars(&mut out, "\nPass trait_filter to see full signatures for one trait.\n");
    }
    if out.len() == 0 {
        let mut msg: Vec<char> = Vec::new();
        crate::text::push_str_chars(&mut msg, "No methods for '");
        crate::text::push_chars(&mut msg, &tyc);
        crate::text::push_str_chars(&mut msg, "' with that trait filter.");
        return string_of(&msg);
    }
    string_of(&out)
}


// ---------------------------------------------------------------------------
// Building and loading.
// ---------------------------------------------------------------------------
/// Some symbol named `name` is owned by `Styled`.
pub open spec fn styled_has(syms: Seq<ApiSymbol>, name: Seq<char>) -> bool {
    exists|i: int| 0 <= i < syms.len() && (#[trigger] syms[i]).name@ == name && owner_is(syms[i], "Styled"@)
}

/// `syms` with each extra symbol appended, in order, unless a `Styled`
/// symbol of that name is already there.
pub open spec fn merged(syms: Seq<ApiSymbol>, extra: Seq<ApiSymbol>) -> Seq<ApiSymbol>
    decreases extra.len(),
{
    if extra.len() == 0 {
        syms
    } else {
        let m = merged(syms, extra.drop_last());
        if styled_has(m, extra.last().name@) {
            m
        } else {
            m.push(extra.last())
        }
    }
}

proof fn lemma_styled_has_push(syms: Seq<ApiSymbol>, x: ApiSymbol, name: Seq<char>)
    requires
        styled_has(syms, name),
    ensures
        styled_has(syms.push(x), name),
{
    let i = choose|i: int| 0 <= i < syms.len() && (#[trigger] syms[i]).name@ == name && owner_is(syms[i], "Styled"@);
    assert(syms.push(x)[i] == syms[i]);
}

proof fn lemma_merged_has_all(syms: Seq<ApiSymbol>, extra: Seq<ApiSymbol>, k: int)
    requires
        0 <= k < extra.len(),
        forall|j: int| 0 <= j < extra.len() ==> owner_is(#[trigger] extra[j], "Styled"@),
    ensures
        styled_has(merged(syms, extra), extra[k].name@),
    decreases extra.len(),
{
    let m = merged(syms, extra.drop_last());
    if k < extra.len() - 1 {
        assert(extra.drop_last()[k] == extra[k]);
        lemma_merged_has_all(syms, extra.drop_last(), k);
        if !styled_has(m, extra.last().name@) {
            lemma_styled_has_push(m, extra.last(), extra[k].name@);
        }
    } else {
        if !styled_has(m, extra.last().name@) {
            assert(m.push(extra.last())[m.len() as int] == extra.last());
        }
    }
}

proof fn lemma_merged_nothing_new(syms: Seq<ApiSymbol>, extra: Seq<ApiSymbol>)
    requires
        forall|j: int| 0 <= j < extra.len() ==> styled_has(syms, (#[trigger] extra[j]).name@),
    ensures
        merged(syms, extra) == syms,
    decreases extra.len(),
{
    if extra.len() > 0 {
        assert forall|j: int| 0 <= j < extra.drop_last().len() implies styled_has(
            syms,
            (#[trigger] extra.drop_last()[j]).name@,
        ) by {
            assert(extra.drop_last()[j] == extra[j]);
        }
        lemma_merged_nothing_new(syms, extra.drop_last());
        assert(styled_has(syms, extra[extra.len() - 1].name@));
    }
}

/// Merging keeps every symbol already there, in place, and merging the same
/// `Styled` methods a second time changes nothing.
pub proof fn law_merge_keeps_and_settles(syms: Seq<ApiSymbol>, extra: Seq<ApiSymbol>)
    requires
        forall|j: int| 0 <= j < extra.len() ==> owner_is(#[trigger] extra[j], "Styled"@),
    ensures
        merged(syms, extra).len() >= syms.len(),
        merged(syms, extra).take(syms.len() as int) == syms,
        merged(merged(syms, extra), extra) == merged(syms, extra),
{
    lemma_merged_prefix(syms, extra);
    let m = merged(syms, extra);
    assert forall|j: int| 0 <= j < extra.len() implies styled_has(m, (#[trigger] extra[j]).name@) by {
        lemma_merged_has_all(syms, extra, j);
    }
    lemma_merged_nothing_new(m, extra);
}

proof fn lemma_merged_prefix(syms: Seq<ApiSymbol>, extra: Seq<ApiSymbol>)
    ensures
        merged(syms, extra).len() >= syms.len(),
        merged(syms, extra).take(syms.len() as int) == syms,
    decreases extra.len(),
{
    if extra.len() > 0 {
        lemma_merged_prefix(syms, extra.drop_last());
        let m = merged(syms, extra.drop_last());
        assert(m.push(extra.last()).take(syms.len() as int) =~= m.take(syms.len() as int));
    } else {
        assert(syms.take(syms.len() as int) =~= syms);
    }
}

/// Adds the macro-generated `Styled` methods that the source scan missed.
pub fn merge_macro_supplement(symbols: &mut Vec<ApiSymbol>, extra: Vec<ApiSymbol>)
    ensures
        final(symbols)@ == merged(old(symbols)@, extra@),
{
    let ghost start = symbols@;
    let ghost ex = extra@;
    let styled = chars_of("Styled");
    let mut rest = crate::sort::reverse_vec(extra);
    assert(ex.take(0) =~= Seq::<ApiSymbol>::empty());
    assert(ex.take(0) + rest@.reverse() =~= ex) by {
        assert(rest@.reverse() =~= ex);
    }
    while rest.len() > 0
        invariant
            rest@.len() <= ex.len(),
            ex.take(ex.len() - rest@.len()) + rest@.reverse() == ex,
            styled@ == "Styled"@,
            symbols@ == merged(start, ex.take(ex.len() - rest@.len())),
        decreases rest.len(),
    {
        let ghost old_rest = rest@;
        let s = rest.pop().unwrap();
        let ghost n = ex.len() - old_rest.len();
        proof {
            assert(old_rest == rest@.push(s));
            assert(old_rest.reverse() =~= seq![s] + rest@.reverse());
            assert(ex.take(n) + (seq![s] + rest@.reverse()) == ex);
            assert(ex[n] == s) by {
                assert((ex.take(n) + (seq![s] + rest@.reverse()))[n] == s);
            }
            assert(ex.take(n + 1) =~= ex.take(n).push(s));
            assert(ex.take(n + 1) + rest@.reverse() =~= ex.take(n) + (seq![s] + rest@.reverse()));
            assert(ex.take(n + 1).drop_last() =~= ex.take(n));
            assert(ex.take(n + 1).last() == s);
        }
        let name = chars_of(s.name.as_str());
        let mut found = false;
        let mut k: usize = 0;
        while k < symbols.len()
            invariant
                k <= symbols@.len(),
                styled@ == "Styled"@,
                found == (exists|m: int| 0 <= m < k && (#[trigger] symbols@[m]).name@ == name@ && owner_is(symbols@[m], "Styled"@)),
            decreases symbols@.len() - k,
        {
            if chars_eq(&chars_of(symbols[k].name.as_str()), &name) && owner_is_exec(&symbols[k], &styled) {
                found = true;
            }
            k += 1;
        }
        if !found {
            symbols.push(s);
        }
    }
    assert(ex.take(ex.len() as int) =~= ex);
}


/// The position of a kind in declaration order.
pub open spec fn kind_rank(k: SymbolKind) -> u8 {
    match k {
        SymbolKind::Struct => 0,
        SymbolKind::Enum => 1,
        SymbolKind::Trait => 2,
        SymbolKind::TraitMethod => 3,
        SymbolKind::Method => 4,
        SymbolKind::Fn => 5,
        SymbolKind::TypeAlias => 6,
        SymbolKind::Const => 7,
        SymbolKind::Macro => 8,
    }
}

fn kind_rank_exec(k: SymbolKind) -> (r: u8)
    ensures
        r == kind_rank(k),
{
    match k {
        SymbolKind::Struct => 0,
        SymbolKind::Enum => 1,
        SymbolKind::Trait => 2,
        SymbolKind::TraitMethod => 3,
        SymbolKind::Method => 4,
        SymbolKind::Fn => 5,
        SymbolKind::TypeAlias => 6,
        SymbolKind::Const => 7,
        SymbolKind::Macro => 8,
    }
}

/// Order of optional owners: none first, then by name.
pub open spec fn owner_le(a: Option<String>, b: Option<String>) -> bool {
    match (a, b) {
        (None, _) => true,
        (Some(_), None) => false,
        (Some(x), Some(y)) => crate::text::lex_le(x@, y@),
    }
}

impl Ranked for ApiSymbol {
    /// Symbols are ordered by name, then kind, then owner.
    open spec fn ranks_le(&self, other: &Self) -> bool {
        if self.name@ != other.name@ {
            crate::text::lex_le(self.name@, other.name@)
        } else if self.kind != other.kind {
            kind_rank(self.kind) < kind_rank(other.kind)
        } else {
            owner_le(self.owner, other.owner)
        }
    }

    fn le(&self, other: &Self) -> (r: bool) {
        let a = chars_of(self.name.as_str());
        let b = chars_of(other.name.as_str());
        if !chars_eq(&a, &b) {
            crate::text::lex_le_exec(&a, &b)
        } else if self.kind != other.kind {
            kind_rank_exec(self.kind) < kind_rank_exec(other.kind)
        } else {
            match (&self.owner, &other.owner) {
                (None, _) => true,
                (Some(_), None) => false,
                (Some(x), Some(y)) => crate::text::lex_le_exec(&chars_of(x.as_str()), &chars_of(y.as_str())),
            }
        }
    }
}

/// Symbols are ordered by a total preorder: name, then kind, then owner.
pub proof fn lemma_api_symbol_order()
    ensures
        crate::sort::total_preorder::<ApiSymbol>(),
{
    assert forall|a: ApiSymbol, b: ApiSymbol| #[trigger] a.ranks_le(&b) || b.ranks_le(&a) by {
        crate::text::lemma_lex_total(a.name@, b.name@);
        match (a.owner, b.owner) {
            (Some(x), Some(y)) => crate::text::lemma_lex_total(x@, y@),
            _ => {},
        }
        if a.kind != b.kind {
            assert(kind_rank(a.kind) != kind_rank(b.kind));
        }
    }
    assert forall|a: ApiSymbol, b: ApiSymbol, c: ApiSymbol| #[trigger] a.ranks_le(&b) && #[trigger] b.ranks_le(&c)
        implies a.ranks_le(&c) by {
        if a.name@ != b.name@ && b.name@ != c.name@ {
            crate::text::lemma_lex_trans(a.name@, b.name@, c.name@);
            if a.name@ == c.name@ {
                crate::text::lemma_lex_antisym(a.name@, b.name@);
            }
        } else if a.name@ == b.name@ && b.name@ == c.name@ {
            if a.kind == b.kind && b.kind == c.kind {
                match (a.owner, b.owner, c.owner) {
                    (Some(x), Some(y), Some(z)) => crate::text::lemma_lex_trans(x@, y@, z@),
                    _ => {},
                }
            } else if a.kind == c.kind {
                assert(kind_rank(a.kind) != kind_rank(b.kind));
            }
        }
    }
}

/// The saved index lists its symbols in order of name, then kind, then
/// owner.
pub proof fn law_index_symbols_sorted(symbols: Seq<ApiSymbol>, extra: Seq<ApiSymbol>)
    ensures
        crate::sort::ordered(sorted(merged(symbols, extra))),
{
    lemma_api_symbol_order();
    crate::sort::lemma_sorted_ordered(merged(symbols, extra));
}

/// The index built from scanned symbols: the extra `Styled` methods merged
/// in, the symbols sorted by name, kind and owner.
pub fn finish_api_index(
    symbols: Vec<ApiSymbol>,
    trait_impls: Vec<TraitImplRecord>,
    skipped_files: Vec<String>,
    extra: Vec<ApiSymbol>,
    zed_commit: &str,
    gpui_version: String,
    built_at: String,
) -> (r: ApiIndex)
    ensures
        r.schema_version == INDEX_SCHEMA_VERSION,
        r.zed_commit@ == zed_commit@,
        r.gpui_version == gpui_version,
        r.built_at == built_at,
        r.skipped_files == skipped_files,
        r.trait_impls == trait_impls,
        r.symbols@ == sorted(merged(symbols@, extra@)),
{
    let mut symbols = symbols;
    merge_macro_supplement(&mut symbols, extra);
    let symbols = sort_ranked(symbols);
    ApiIndex {
        schema_version: INDEX_SCHEMA_VERSION,
        zed_commit: zed_commit.to_owned(),
        gpui_version,
        built_at,
        skipped_files,
        trait_impls,
        symbols,
    }
}

/// Why a loaded index was refused.
#[derive(Clone, Debug, PartialEq, Eq)]
pub struct SchemaMismatch {
    pub found: u32,
    pub expected: u32,
}

/// A loaded index is accepted only with the current schema version.
pub fn check_schema(idx: ApiIndex) -> (r: Result<ApiIndex, SchemaMismatch>)
    ensures
        idx.schema_version == INDEX_SCHEMA_VERSION ==> r == Ok::<ApiIndex, SchemaMismatch>(idx),
        idx.schema_version != INDEX_SCHEMA_VERSION ==> r == Err::<ApiIndex, SchemaMismatch>(
            SchemaMismatch { found: idx.schema_version, expected: INDEX_SCHEMA_VERSION },
        ),
{
    if idx.schema_version != INDEX_SCHEMA_VERSION {
        return Err(SchemaMismatch { found: idx.schema_version, expected: INDEX_SCHEMA_VERSION });
    }
    Ok(idx)
}

/// The loaded index, or the empty one when loading failed.
pub fn load_or_empty<E>(loaded: Result<ApiIndex, E>) -> (r: ApiIndex)
    ensures
        match loaded {
            Ok(i) => r == i,
            Err(_) => r.schema_version == INDEX_SCHEMA_VERSION && r.symbols@.len() == 0
                && r.trait_impls@.len() == 0 && r.skipped_files@.len() == 0
                && r.zed_commit@.len() == 0 && r.built_at@.len() == 0 && r.gpui_version@ == "unknown"@,
        },
{
    match loaded {
        Ok(i) => i,
        Err(_) => ApiIndex::empty(),
    }
}

// ---------------------------------------------------------------------------
// The crate version from a manifest.
// ---------------------------------------------------------------------------
/// Index of the first occurrence of `c`.
pub open spec fn first_index_of(s: Seq<char>, c: char) -> Option<int>
    decreases s.len(),
{
    if s.len() == 0 {
        None
    } else if s[0] == c {
        Some(0)
    } else {
        match first_index_of(s.drop_first(), c) {
            Some(i) => Some(i + 1),
            None => None,
        }
    }
}

/// The second `"`-separated piece of `s`, if `s` holds a `"` (what
/// `s.split('"').nth(1)` returns).
pub open spec fn second_piece(s: Seq<char>) -> Option<Seq<char>> {
    match first_index_of(s, '"') {
        None => None,
        Some(i) => {
            let after = s.skip(i + 1);
            match first_index_of(after, '"') {
                Some(j) => Some(after.take(j)),
                None => Some(after),
            }
        },
    }
}

/// The version on the first line that starts with `version` and quotes one.
pub open spec fn version_in_lines(ls: Seq<Seq<char>>) -> Option<Seq<char>>
    decreases ls.len(),
{
    if ls.len() == 0 {
        None
    } else {
        let t = trim(ls[0]);
        if "version"@.is_prefix_of(t) && second_piece(t.skip(7)) is Some {
            second_piece(t.skip(7))
        } else {
            version_in_lines(ls.drop_first())
        }
    }
}

/// The `version` of a `Cargo.toml`, or `unknown`.
pub open spec fn manifest_version(text: Seq<char>) -> Seq<char> {
    match version_in_lines(crate::text::lines(text)) {
        Some(v) => v,
        None => "unknown"@,
    }
}

/// Index of the first `c`.
fn find_char(s: &Vec<char>, c: char) -> (r: Option<usize>)
    ensures
        match r {
            Some(i) => i < s@.len() && first_index_of(s@, c) == Some(i as int),
            None => first_index_of(s@, c) is None,
        },
{
    let mut i: usize = 0;
    assert(s@.skip(0) =~= s@);
    while i < s.len()
        invariant
            i <= s@.len(),
            first_index_of(s@, c) == (match first_index_of(s@.skip(i as int), c) {
                Some(k) => Some(k + i),
                None => None,
            }),
        decreases s@.len() - i,
    {
        assert(s@.skip(i as int)[0] == s@[i as int]);
        if s[i] == c {
            return Some(i);
        }
        assert(s@.skip(i as int).drop_first() =~= s@.skip(i + 1));
        i += 1;
    }
    assert(s@.skip(i as int) =~= Seq::<char>::empty());
    None
}

/// The elements of `s` from `from` on.
fn skip_chars(s: &Vec<char>, from: usize) -> (r: Vec<char>)
    requires
        from <= s@.len(),
    ensures
        r@ == s@.skip(from as int),
{
    let mut r: Vec<char> = Vec::new();
    let mut i: usize = from;
    while i < s.len()
        invariant
            from <= i <= s@.len(),
            r@ == s@.subrange(from as int, i as int),
        decreases s@.len() - i,
    {
        r.push(s[i]);
        assert(s@.subrange(from as int, i + 1) =~= s@.subrange(from as int, i as int).push(s@[i as int]));
        i += 1;
    }
    assert(s@.subrange(from as int, s@.len() as int) =~= s@.skip(from as int));
    r
}

/// The first `n` elements of `s`.
fn take_chars(s: &Vec<char>, n: usize) -> (r: Vec<char>)
    requires
        n <= s@.len(),
    ensures
        r@ == s@.take(n as int),
{
    let mut r: Vec<char> = Vec::new();
    let mut i: usize = 0;
    while i < n
        invariant
            i <= n <= s@.len(),
            r@ == s@.take(i as int),
        decreases n - i,
    {
        r.push(s[i]);
        assert(s@.take(i + 1) =~= s@.take(i as int).push(s@[i as int]));
        i += 1;
    }
    r
}

fn second_piece_exec(s: &Vec<char>) -> (r: Option<Vec<char>>)
    ensures
        match r {
            Some(v) => second_piece(s@) == Some(v@),
            None => second_piece(s@) is None,
        },
{
    match find_char(s, '"') {
        None => None,
        Some(i) => {
            if i >= s.len() {
                return None;
            }
            let after = skip_chars(s, i + 1);
            match find_char(&after, '"') {
                Some(j) => Some(take_chars(&after, j)),
                None => Some(after),
            }
        },
    }
}

/// The `version` of a `Cargo.toml` text, or `unknown`.
pub fn gpui_version_from_manifest(text: &str) -> (r: String)
    ensures
        r@ == manifest_version(text@),
{
    let ls = crate::text::split_lines(&chars_of(text));
    let prefix = chars_of("version");
    let mut i: usize = 0;
    assert(crate::text::views(ls@).skip(0) =~= crate::text::views(ls@));
    while i < ls.len()
        invariant
            i <= ls@.len(),
            prefix@ == "version"@,
            crate::text::views(ls@) == crate::text::lines(text@),
            version_in_lines(crate::text::views(ls@)) == version_in_lines(crate::text::views(ls@).skip(i as int)),
        decreases ls@.len() - i,
    {
        let ghost vs = crate::text::views(ls@).skip(i as int);
        assert(vs[0] == ls@[i as int]@);
        assert(vs.drop_first() =~= crate::text::views(ls@).skip(i + 1));
        let t = trim_chars(&ls[i]);
        if has_prefix(&t, &prefix) {
            proof {
                reveal_strlit("version");
            }
            let rest = skip_chars(&t, 7);
            match second_piece_exec(&rest) {
                Some(v) => {
                    assert(trim(vs[0]) == t@);
                    assert("version"@.is_prefix_of(trim(vs[0])));
                    assert(version_in_lines(vs) == second_piece(trim(vs[0]).skip(7)));
                    return string_of(&v);
                },
                None => {},
            }
        }
        i += 1;
    }
    string_of(&chars_of("unknown"))
}

} // verus!
