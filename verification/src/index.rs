//! The markdown and example corpus: documents, keyword search and lookup by id.

use vstd::prelude::*;

use crate::paths::{
    components_of, extension_of, file_name_of, file_stem_of, opt_view, path_components,
    path_extension, path_file_name, path_file_stem, path_strip_prefix, strip_prefix_of,
};
use crate::sort::{sort_ranked, sorted, Ranked};
use crate::text::{
    ascii_lower_seq, chars_are, chars_eq, chars_of, contains_chars, count_matches, count_matches_exec,
    eq_ignore_ascii, eq_ignore_ascii_case_chars, has_infix, has_suffix, lex_le, lex_le_exec,
    lines, lower_chars, lowercase, replace_char, replace_char_spec, split_lines, split_words,
    string_of, trim, trim_chars, utf8_len, utf8_len_gt, views, words,
};

verus! {

/// One indexed document: a markdown page or an example source file.
#[derive(Clone, Debug)]
pub struct Doc {
    pub id: String,
    pub source: String,
    pub kind: String,
    pub title: String,
    pub path: String,
    pub body: String,
}

/// All indexed documents, and the sources that are not on disk yet.
#[derive(Clone, Debug)]
pub struct Corpus {
    pub docs: Vec<Doc>,
    pub missing: Vec<String>,
}

// ---------------------------------------------------------------------------
// Specifications.
// ---------------------------------------------------------------------------
/// The query words that can pick a snippet line: those longer than two
/// bytes, in lowercase.
pub open spec fn snippet_keys(query: Seq<char>) -> Seq<Seq<char>> {
    words(query).filter(longer_than(2)).map_values(lowercase_fn())
}

/// The test that a word is longer than `n` bytes.
pub open spec fn longer_than(n: nat) -> spec_fn(Seq<char>) -> bool {
    |w: Seq<char>| utf8_len(w) > n
}

/// `lowercase` as a function value.
pub open spec fn lowercase_fn() -> spec_fn(Seq<char>) -> Seq<char> {
    |w: Seq<char>| lowercase(w)
}

/// Some key occurs in the lowercase line.
pub open spec fn line_hits(line: Seq<char>, keys: Seq<Seq<char>>) -> bool {
    exists|k: int| 0 <= k < keys.len() && has_infix(lowercase(line), #[trigger] keys[k])
}

/// The first line that some key hits.
pub open spec fn first_hit_line(ls: Seq<Seq<char>>, keys: Seq<Seq<char>>) -> Option<Seq<char>>
    decreases ls.len(),
{
    if ls.len() == 0 {
        None
    } else if line_hits(ls[0], keys) {
        Some(ls[0])
    } else {
        first_hit_line(ls.drop_first(), keys)
    }
}

/// The first line that is not blank.
pub open spec fn first_nonblank_line(ls: Seq<Seq<char>>) -> Option<Seq<char>>
    decreases ls.len(),
{
    if ls.len() == 0 {
        None
    } else if trim(ls[0]).len() > 0 {
        Some(ls[0])
    } else {
        first_nonblank_line(ls.drop_first())
    }
}

/// The snippet of a body for a query: the first line hit by a query word,
/// else the first non-blank line, else nothing; trimmed.
pub open spec fn snippet_of(body: Seq<char>, query: Seq<char>) -> Seq<char> {
    let ls = lines(body);
    let chosen = match first_hit_line(ls, snippet_keys(query)) {
        Some(l) => l,
        None => match first_nonblank_line(ls) {
            Some(l) => l,
            None => Seq::<char>::empty(),
        },
    };
    trim(chosen)
}
proof fn lemma_first_hit_line_in(ls: Seq<Seq<char>>, keys: Seq<Seq<char>>)
    ensures
        first_hit_line(ls, keys) matches Some(l) ==> exists|i: int| 0 <= i < ls.len() && ls[i] == l,
    decreases ls.len(),
{
    if ls.len() > 0 && !line_hits(ls[0], keys) {
        lemma_first_hit_line_in(ls.drop_first(), keys);
        if let Some(l) = first_hit_line(ls.drop_first(), keys) {
            let i = choose|i: int| 0 <= i < ls.drop_first().len() && ls.drop_first()[i] == l;
            assert(ls[i + 1] == l);
        }
    }
}

proof fn lemma_first_nonblank_in(ls: Seq<Seq<char>>)
    ensures
        first_nonblank_line(ls) matches Some(l) ==> exists|i: int| 0 <= i < ls.len() && ls[i] == l,
    decreases ls.len(),
{
    if ls.len() > 0 && trim(ls[0]).len() == 0 {
        lemma_first_nonblank_in(ls.drop_first());
        if let Some(l) = first_nonblank_line(ls.drop_first()) {
            let i = choose|i: int| 0 <= i < ls.drop_first().len() && ls.drop_first()[i] == l;
            assert(ls[i + 1] == l);
        }
    }
}

/// A snippet is one line of the body, trimmed, or nothing.
pub proof fn law_snippet_is_trimmed_line(body: Seq<char>, query: Seq<char>)
    ensures
        snippet_of(body, query).len() == 0 || exists|i: int|
            0 <= i < lines(body).len() && snippet_of(body, query) == trim(#[trigger] lines(body)[i]),
{
    let ls = lines(body);
    lemma_first_hit_line_in(ls, snippet_keys(query));
    lemma_first_nonblank_in(ls);
    if first_hit_line(ls, snippet_keys(query)) is None && first_nonblank_line(ls) is None {
        assert(trim(Seq::<char>::empty()) =~= Seq::<char>::empty());
    }
}


/// Search tokens: the lowercase words of the query longer than one byte.
pub open spec fn search_tokens(query: Seq<char>) -> Seq<Seq<char>> {
    words(query).map_values(lowercase_fn()).filter(longer_than(1))
}

/// Score of one token for a document: 8 for a title hit, 4 for an id hit, and
/// the number of body occurrences up to 12 (all compared in lowercase).
pub open spec fn token_score(d: Doc, t: Seq<char>) -> nat {
    let c = count_matches(lowercase(d.body@), t);
    (if has_infix(lowercase(d.title@), t) { 8nat } else { 0nat }) + (if has_infix(
        lowercase(d.id@),
        t,
    ) {
        4nat
    } else {
        0nat
    }) + (if c < 12 { c } else { 12nat })
}

/// Sum of the token scores.
pub open spec fn doc_score(d: Doc, toks: Seq<Seq<char>>) -> nat
    decreases toks.len(),
{
    if toks.len() == 0 {
        0
    } else {
        doc_score(d, toks.drop_last()) + token_score(d, toks.last())
    }
}

/// The document passes the source filter (equal up to ASCII case).
pub open spec fn source_ok(d: Doc, source: Option<Seq<char>>) -> bool {
    match source {
        Some(s) => eq_ignore_ascii(d.source@, s),
        None => true,
    }
}

/// A scored document: its score and its index in the corpus.
#[derive(Clone, Copy, Debug)]
pub struct DocHit {
    pub score: u32,
    pub idx: usize,
}

impl Ranked for DocHit {
    open spec fn ranks_le(&self, other: &Self) -> bool {
        self.score >= other.score
    }

    fn le(&self, other: &Self) -> (r: bool) {
        self.score >= other.score
    }
}

/// The documents among the first `docs.len()` that pass the filter and score
/// above zero, in corpus order.
pub open spec fn search_candidates(
    docs: Seq<Doc>,
    toks: Seq<Seq<char>>,
    source: Option<Seq<char>>,
) -> Seq<DocHit>
    decreases docs.len(),
{
    if docs.len() == 0 {
        seq![]
    } else {
        let prev = search_candidates(docs.drop_last(), toks, source);
        let d = docs.last();
        if source_ok(d, source) && doc_score(d, toks) > 0 {
            prev.push(DocHit { score: doc_score(d, toks) as u32, idx: (docs.len() - 1) as usize })
        } else {
            prev
        }
    }
}

/// What `Corpus::search` returns, as hits: none without tokens, else the
/// candidates by descending score (corpus order among equal scores), at most
/// `limit` of them.
pub open spec fn search_hits(
    docs: Seq<Doc>,
    query: Seq<char>,
    source: Option<Seq<char>>,
    limit: nat,
) -> Seq<DocHit> {
    let toks = search_tokens(query);
    if toks.len() == 0 {
        seq![]
    } else {
        let s = sorted(search_candidates(docs, toks, source));
        if limit < s.len() {
            s.take(limit as int)
        } else {
            s
        }
    }
}

/// Smallest index of an element that satisfies `p`.
pub open spec fn first_where<T>(s: Seq<T>, p: spec_fn(T) -> bool) -> Option<int>
    decreases s.len(),
{
    if s.len() == 0 {
        None
    } else if p(s[0]) {
        Some(0)
    } else {
        match first_where(s.drop_first(), p) {
            Some(i) => Some(i + 1),
            None => None,
        }
    }
}

/// `first_where` is the first index at which `p` holds.
pub proof fn lemma_first_where<T>(s: Seq<T>, p: spec_fn(T) -> bool, i: int)
    requires
        0 <= i <= s.len(),
        forall|k: int| 0 <= k < i ==> !p(#[trigger] s[k]),
        i < s.len() ==> p(s[i]),
    ensures
        first_where(s, p) == (if i < s.len() { Some(i) } else { None::<int> }),
    decreases i,
{
    if i > 0 {
        assert forall|k: int| 0 <= k < i - 1 implies !p(#[trigger] s.drop_first()[k]) by {
            assert(s.drop_first()[k] == s[k + 1]);
            assert(!p(s[k + 1]));
        }
        assert(!p(s[0]));
        if i < s.len() {
            assert(s.drop_first()[i - 1] == s[i]);
        }
        lemma_first_where(s.drop_first(), p, i - 1);
    }
}

/// The test that a document's id is `q`.
pub open spec fn id_is(q: Seq<char>) -> spec_fn(Doc) -> bool {
    |d: Doc| d.id@ == q
}

/// The test that a document's id ends with `suffix`.
pub open spec fn id_ends_with(suffix: Seq<char>) -> spec_fn(Doc) -> bool {
    |d: Doc| suffix.is_suffix_of(d.id@)
}

/// The test that a document's file name is `q`, ASCII case ignored.
pub open spec fn file_named(q: Seq<char>) -> spec_fn(Doc) -> bool {
    |d: Doc| file_name_is(d.path@, q)
}

/// Smallest index of a document whose id is `q`.
pub open spec fn first_with_id(docs: Seq<Doc>, q: Seq<char>) -> Option<int> {
    first_where(docs, id_is(q))
}

/// Smallest index of a document whose id ends with `suffix`.
pub open spec fn first_with_id_suffix(docs: Seq<Doc>, suffix: Seq<char>) -> Option<int> {
    first_where(docs, id_ends_with(suffix))
}

/// The file name of the path equals `q` up to ASCII case.
pub open spec fn file_name_is(path: Seq<char>, q: Seq<char>) -> bool {
    match file_name_of(path) {
        Some(n) => eq_ignore_ascii(n, q),
        None => false,
    }
}

/// Smallest index of a document whose file name is `q` up to ASCII case.
pub open spec fn first_with_file_name(docs: Seq<Doc>, q: Seq<char>) -> Option<int> {
    first_where(docs, file_named(q))
}

/// Index of the last occurrence of `c` in `s`.
pub open spec fn last_index_of(s: Seq<char>, c: char) -> Option<int>
    decreases s.len(),
{
    if s.len() == 0 {
        None
    } else if s.last() == c {
        Some(s.len() - 1)
    } else {
        last_index_of(s.drop_last(), c)
    }
}

/// An id as given by a caller, normalised: trimmed, backslashes turned into
/// slashes.
pub open spec fn normalized_id(id: Seq<char>) -> Seq<char> {
    replace_char_spec(trim(id), '\\', '/')
}

/// Normalising an id leaves no backslash, and normalising again changes
/// nothing.
pub proof fn law_normalize_id(id: Seq<char>)
    ensures
        !normalized_id(id).contains('\\'),
        normalized_id(normalized_id(id)) == normalized_id(id),
{
    let t = trim(id);
    let y = normalized_id(id);
    crate::text::lemma_trim_clean(id);
    assert(!crate::text::white_space('/')) by {
        assert(('/' as u32) == 0x2f);
    }
    if y.len() > 0 {
        assert(y[0] == t[0] || y[0] == '/');
        assert(y.last() == t.last() || y.last() == '/');
    }
    crate::text::lemma_trim_fixed(y);
    assert(replace_char_spec(y, '\\', '/') =~= y);
}

/// The index of the document that `Corpus::get` returns: an exact id match;
/// else, when the id holds a slash, a document whose id ends with the part
/// from the last slash on; else a document whose file name matches.
pub open spec fn get_index(docs: Seq<Doc>, id: Seq<char>) -> Option<int> {
    let q = normalized_id(id);
    if q.len() == 0 {
        None
    } else if first_with_id(docs, q) is Some {
        first_with_id(docs, q)
    } else {
        match last_index_of(q, '/') {
            Some(slash) => first_with_id_suffix(docs, q.skip(slash)),
            None => first_with_file_name(docs, q),
        }
    }
}

/// `first_where` gives the first index at which `p` holds, or `None` when
/// it holds nowhere.
pub proof fn lemma_first_where_is<T>(s: Seq<T>, p: spec_fn(T) -> bool)
    ensures
        match first_where(s, p) {
            Some(i) => 0 <= i < s.len() && p(s[i]) && forall|k: int| 0 <= k < i ==> !p(#[trigger] s[k]),
            None => forall|k: int| 0 <= k < s.len() ==> !p(#[trigger] s[k]),
        },
    decreases s.len(),
{
    if s.len() > 0 && !p(s[0]) {
        lemma_first_where_is(s.drop_first(), p);
        match first_where(s.drop_first(), p) {
            Some(i) => {
                assert(first_where(s, p) == Some(i + 1));
                assert(s[i + 1] == s.drop_first()[i]);
                assert forall|k: int| 0 <= k < i + 1 implies !p(#[trigger] s[k]) by {
                    if k > 0 {
                        assert(s[k] == s.drop_first()[k - 1]);
                    }
                }
            },
            None => {
                assert forall|k: int| 0 <= k < s.len() implies !p(#[trigger] s[k]) by {
                    if k > 0 {
                        assert(s[k] == s.drop_first()[k - 1]);
                    }
                }
            },
        }
    }
}

proof fn lemma_last_index_of(s: Seq<char>, c: char)
    ensures
        match last_index_of(s, c) {
            Some(i) => 0 <= i < s.len() && s[i] == c && forall|k: int| i < k < s.len() ==> s[k] != c,
            None => !s.contains(c),
        },
    decreases s.len(),
{
    if s.len() > 0 && s.last() != c {
        lemma_last_index_of(s.drop_last(), c);
        if last_index_of(s, c) is None {
            assert forall|k: int| 0 <= k < s.len() implies s[k] != c by {
                if k < s.len() - 1 {
                    assert(s[k] == s.drop_last()[k]);
                }
            }
        } else {
            let i = last_index_of(s, c)->0;
            assert forall|k: int| i < k < s.len() implies s[k] != c by {
                if k < s.len() - 1 {
                    assert(s[k] == s.drop_last()[k]);
                }
            }
        }
    }
}

/// The match that `Corpus::get` falls back on for a normalised id `q` that
/// no document has: with a `/` in `q`, an id ending with the part from the
/// last `/` on; else a file name equal to `q`, ASCII case ignored.
pub open spec fn fallback_match(d: Doc, q: Seq<char>) -> bool {
    match last_index_of(q, '/') {
        Some(sl) => q.skip(sl).is_suffix_of(d.id@),
        None => file_name_is(d.path@, q),
    }
}

/// `Corpus::get` resolves an id in this order, each time taking the first
/// document in corpus order: a document whose id is the normalised id;
/// else, when the id holds a `/`, one whose id ends with the part from its
/// last `/` on; else one whose file name is the id, ASCII case ignored.
/// A blank id finds nothing.
pub proof fn law_get_resolution_order(docs: Seq<Doc>, id: Seq<char>)
    ensures
        ({
            let q = normalized_id(id);
            &&& last_index_of(q, '/') matches Some(sl) ==> q[sl] == '/' && forall|k: int| sl < k < q.len() ==> q[k] != '/'
            &&& last_index_of(q, '/') is None ==> !q.contains('/')
            &&& match get_index(docs, id) {
                Some(j) => {
                    &&& q.len() > 0
                    &&& 0 <= j < docs.len()
                    &&& if docs[j].id@ == q {
                        forall|k: int| 0 <= k < j ==> (#[trigger] docs[k]).id@ != q
                    } else {
                        &&& forall|k: int| 0 <= k < docs.len() ==> (#[trigger] docs[k]).id@ != q
                        &&& fallback_match(docs[j], q)
                        &&& forall|k: int| 0 <= k < j ==> !fallback_match(#[trigger] docs[k], q)
                    }
                },
                None => q.len() == 0 || forall|k: int|
                    0 <= k < docs.len() ==> (#[trigger] docs[k]).id@ != q && !fallback_match(docs[k], q),
            }
        }),
{
    let q = normalized_id(id);
    lemma_last_index_of(q, '/');
    lemma_first_where_is(docs, id_is(q));
    if q.len() > 0 && first_with_id(docs, q) is None {
        if let Some(sl) = last_index_of(q, '/') {
            lemma_first_where_is(docs, id_ends_with(q.skip(sl)));
        } else {
            lemma_first_where_is(docs, file_named(q));
        }
    }
}

/// When no document has the normalised id and the id holds a `/`, the
/// document `get` answers has an id that ends with the id's part from its
/// last `/` on, that `/` included, so a match always starts at a path
/// boundary; and no earlier document's id ends so.
pub proof fn law_get_suffix_from_last_slash(docs: Seq<Doc>, id: Seq<char>)
    ensures
        ({
            let q = normalized_id(id);
            match get_index(docs, id) {
                Some(j) => docs[j].id@ != q && q.contains('/') ==> exists|sl: int|
                    0 <= sl < q.len() && q[sl] == '/' && (forall|k: int| sl < k < q.len() ==> q[k] != '/')
                        && #[trigger] q.skip(sl).is_suffix_of(docs[j].id@) && q.skip(sl)[0] == '/' && forall|k: int|
                        0 <= k < j ==> !q.skip(sl).is_suffix_of(#[trigger] docs[k].id@),
                None => true,
            }
        }),
{
    let q = normalized_id(id);
    law_get_resolution_order(docs, id);
    lemma_last_index_of(q, '/');
    if let Some(j) = get_index(docs, id) {
        if docs[j].id@ != q && q.contains('/') {
            let sl = last_index_of(q, '/')->0;
            assert(q.skip(sl)[0] == q[sl]);
            assert forall|k: int| 0 <= k < j implies !q.skip(sl).is_suffix_of(#[trigger] docs[k].id@) by {
                assert(!fallback_match(docs[k], q));
            }
            assert(fallback_match(docs[j], q));
        }
    }
}

/// When no document has the normalised id and the id holds no `/`, the
/// document `get` answers has a file name equal to the id up to ASCII case,
/// and no earlier document has.
pub proof fn law_get_file_name_without_slash(docs: Seq<Doc>, id: Seq<char>)
    ensures
        ({
            let q = normalized_id(id);
            match get_index(docs, id) {
                Some(j) => docs[j].id@ != q && !q.contains('/') ==> {
                    &&& file_name_of(docs[j].path@) matches Some(n) && ascii_lower_seq(n) == ascii_lower_seq(q)
                    &&& forall|k: int|
                        0 <= k < j ==> !(file_name_of((#[trigger] docs[k]).path@) matches Some(n) && ascii_lower_seq(n)
                            == ascii_lower_seq(q))
                },
                None => true,
            }
        }),
{
    let q = normalized_id(id);
    law_get_resolution_order(docs, id);
    lemma_last_index_of(q, '/');
    if let Some(j) = get_index(docs, id) {
        if docs[j].id@ != q && !q.contains('/') {
            assert(fallback_match(docs[j], q));
            assert forall|k: int|
                0 <= k < j implies !(file_name_of((#[trigger] docs[k]).path@) matches Some(n) && ascii_lower_seq(n)
                    == ascii_lower_seq(q)) by {
                assert(!fallback_match(docs[k], q));
            }
        }
    }
}

/// An example document ordered by its id.
pub struct ExampleKey {
    pub id: String,
    pub idx: usize,
}

impl Ranked for ExampleKey {
    open spec fn ranks_le(&self, other: &Self) -> bool {
        lex_le(self.id@, other.id@)
    }

    fn le(&self, other: &Self) -> (r: bool) {
        lex_le_exec(&chars_of(self.id.as_str()), &chars_of(other.id.as_str()))
    }
}

/// The example documents (kind `example`), in corpus order.
pub open spec fn example_keys(docs: Seq<Doc>) -> Seq<ExampleKey>
    decreases docs.len(),
{
    if docs.len() == 0 {
        seq![]
    } else {
        let prev = example_keys(docs.drop_last());
        if docs.last().kind@ == "example"@ {
            prev.push(ExampleKey { id: docs.last().id, idx: (docs.len() - 1) as usize })
        } else {
            prev
        }
    }
}

proof fn lemma_example_keys_idx(docs: Seq<Doc>, k: int)
    requires
        0 <= k < example_keys(docs).len(),
    ensures
        example_keys(docs)[k].idx < docs.len(),
    decreases docs.len(),
{
    if docs.len() > 0 {
        if k < example_keys(docs.drop_last()).len() {
            lemma_example_keys_idx(docs.drop_last(), k);
        }
    }
}

// ---------------------------------------------------------------------------
// Documents.
// ---------------------------------------------------------------------------
impl Doc {
    /// A document with the given fields.
    pub fn new(id: &str, source: &str, kind: &str, title: &str, path: &str, body: &str) -> (d: Doc)
        ensures
            d.id@ == id@,
            d.source@ == source@,
            d.kind@ == kind@,
            d.title@ == title@,
            d.path@ == path@,
            d.body@ == body@,
    {
        Doc {
            id: id.to_owned(),
            source: source.to_owned(),
            kind: kind.to_owned(),
            title: title.to_owned(),
            path: path.to_owned(),
            body: body.to_owned(),
        }
    }

    /// The line of the body that best shows why it matched `query`.
    pub fn snippet(&self, query: &str) -> (r: String)
        ensures
            r@ == snippet_of(self.body@, query@),
    {
        let ls = split_lines(&chars_of(self.body.as_str()));
        let keys = snippet_keys_exec(query);
        let chosen: Vec<char> = match find_hit_line(&ls, &keys) {
            Some(i) => ls[i].clone(),
            None => match find_nonblank_line(&ls) {
                Some(i) => ls[i].clone(),
                None => Vec::new(),
            },
        };
        proof {
            assert(chosen@ =~= chosen@);
        }
        string_of(&trim_chars(&chosen))
    }
}

/// The lowercase query words longer than two bytes.
fn snippet_keys_exec(query: &str) -> (r: Vec<Vec<char>>)
    ensures
        views(r@) == snippet_keys(query@),
{
    let qw = split_words(&chars_of(query));
    let ghost ws = views(qw@);
    let ghost p = longer_than(2);
    let ghost f = lowercase_fn();
    let mut r: Vec<Vec<char>> = Vec::new();
    let mut k: usize = 0;
    assert(ws.take(0).filter(p) =~= Seq::<Seq<char>>::empty());
    while k < qw.len()
        invariant
            k <= qw.len(),
            ws == views(qw@),
            p == longer_than(2),
            f == lowercase_fn(),
            views(r@) == ws.take(k as int).filter(p).map_values(f),
        decreases qw.len() - k,
    {
        let ghost before = views(r@);
        proof {
            assert(ws.take(k + 1) =~= ws.take(k as int).push(ws[k as int]));
            ws.take(k as int).lemma_filter_push(ws[k as int], p);
            assert(ws[k as int] == qw@[k as int]@);
            assert(p(ws[k as int]) == (utf8_len(ws[k as int]) > 2));
        }
        if utf8_len_gt(&qw[k], 2) {
            let lw = lower_chars(&qw[k]);
            r.push(lw);
            assert(views(r@) =~= before.push(lw@));
            assert(ws.take(k as int).filter(p).push(ws[k as int]).map_values(f) =~= ws.take(
                k as int,
            ).filter(p).map_values(f).push(f(ws[k as int])));
        } else {
            assert(ws.take(k + 1).filter(p) == ws.take(k as int).filter(p));
        }
        k += 1;
    }
    assert(ws.take(qw.len() as int) =~= ws);
    r
}

/// Whether some key occurs in the lowercase line.
fn line_hits_exec(line: &Vec<char>, keys: &Vec<Vec<char>>) -> (r: bool)
    ensures
        r == line_hits(line@, views(keys@)),
{
    let low = lower_chars(line);
    let mut j: usize = 0;
    while j < keys.len()
        invariant
            j <= keys.len(),
            low@ == lowercase(line@),
            forall|k: int| 0 <= k < j ==> !has_infix(low@, #[trigger] views(keys@)[k]),
        decreases keys.len() - j,
    {
        if contains_chars(&low, &keys[j]) {
            assert(views(keys@)[j as int] == keys@[j as int]@);
            return true;
        }
        assert(views(keys@)[j as int] == keys@[j as int]@);
        j += 1;
    }
    false
}

/// Index of the first line that some key hits.
fn find_hit_line(ls: &Vec<Vec<char>>, keys: &Vec<Vec<char>>) -> (r: Option<usize>)
    ensures
        match r {
            Some(i) => i < ls.len() && first_hit_line(views(ls@), views(keys@)) == Some(ls@[i as int]@),
            None => first_hit_line(views(ls@), views(keys@)) is None,
        },
{
    let mut i: usize = 0;
    assert(views(ls@).skip(0) =~= views(ls@));
    while i < ls.len()
        invariant
            i <= ls.len(),
            first_hit_line(views(ls@), views(keys@)) == first_hit_line(views(ls@).skip(i as int), views(keys@)),
        decreases ls.len() - i,
    {
        assert(views(ls@).skip(i as int)[0] == ls@[i as int]@);
        assert(views(ls@).skip(i as int).drop_first() =~= views(ls@).skip(i + 1));
        if line_hits_exec(&ls[i], keys) {
            return Some(i);
        }
        i += 1;
    }
    None
}

/// Index of the first line that is not blank.
fn find_nonblank_line(ls: &Vec<Vec<char>>) -> (r: Option<usize>)
    ensures
        match r {
            Some(i) => i < ls.len() && first_nonblank_line(views(ls@)) == Some(ls@[i as int]@),
            None => first_nonblank_line(views(ls@)) is None,
        },
{
    let mut i: usize = 0;
    assert(views(ls@).skip(0) =~= views(ls@));
    while i < ls.len()
        invariant
            i <= ls.len(),
            first_nonblank_line(views(ls@)) == first_nonblank_line(views(ls@).skip(i as int)),
        decreases ls.len() - i,
    {
        assert(views(ls@).skip(i as int)[0] == ls@[i as int]@);
        assert(views(ls@).skip(i as int).drop_first() =~= views(ls@).skip(i + 1));
        if trim_chars(&ls[i]).len() > 0 {
            return Some(i);
        }
        i += 1;
    }
    None
}


/// There are no more words in `s` than characters.
pub proof fn lemma_words_len(s: Seq<char>)
    ensures
        words(s).len() <= s.len(),
    decreases s.len(),
{
    if s.len() > 0 {
        if crate::text::white_space(s[0]) {
            lemma_words_len(s.drop_first());
        } else {
            crate::text::lemma_word_len_bound(s);
            lemma_words_len(s.skip(crate::text::word_len(s) as int));
        }
    }
}

/// A document scores at most 24 per token.
pub proof fn lemma_doc_score_bound(d: Doc, toks: Seq<Seq<char>>)
    ensures
        doc_score(d, toks) <= 24 * toks.len(),
    decreases toks.len(),
{
    if toks.len() > 0 {
        lemma_doc_score_bound(d, toks.drop_last());
    }
}

/// The optional source filter as a view.
pub open spec fn opt_str_view(o: Option<&str>) -> Option<Seq<char>> {
    match o {
        Some(s) => Some(s@),
        None => None,
    }
}

/// The lowercase query words longer than one byte.
pub(crate) fn search_tokens_exec(query: &str) -> (r: Vec<Vec<char>>)
    ensures
        views(r@) == search_tokens(query@),
        r@.len() <= query@.len(),
{
    let qw = split_words(&chars_of(query));
    let ghost ws = views(qw@);
    let ghost p = longer_than(1);
    let ghost f = lowercase_fn();
    let mut r: Vec<Vec<char>> = Vec::new();
    let mut k: usize = 0;
    assert(ws.take(0).map_values(f).filter(p) =~= Seq::<Seq<char>>::empty());
    while k < qw.len()
        invariant
            k <= qw.len(),
            ws == views(qw@),
            p == longer_than(1),
            f == lowercase_fn(),
            views(r@) == ws.take(k as int).map_values(f).filter(p),
        decreases qw.len() - k,
    {
        let lw = lower_chars(&qw[k]);
        proof {
            assert(ws.take(k + 1).map_values(f) =~= ws.take(k as int).map_values(f).push(lw@));
            ws.take(k as int).map_values(f).lemma_filter_push(lw@, p);
            assert(p(lw@) == (utf8_len(lw@) > 1));
        }
        if utf8_len_gt(&lw, 1) {
            let ghost before = views(r@);
            r.push(lw);
            assert(views(r@) =~= before.push(lw@));
        }
        k += 1;
    }
    assert(ws.take(qw.len() as int) =~= ws);
    proof {
        lemma_words_len(query@);
        ws.map_values(f).lemma_filter_len(p);
    }
    r
}

/// Score of a document for the tokens.
fn score_doc(d: &Doc, toks: &Vec<Vec<char>>) -> (n: u32)
    requires
        toks@.len() * 24 <= u32::MAX,
        forall|k: int| 0 <= k < toks@.len() ==> (#[trigger] toks@[k])@.len() > 0,
    ensures
        n == doc_score(*d, views(toks@)),
{
    let title = lower_chars(&chars_of(d.title.as_str()));
    let id = lower_chars(&chars_of(d.id.as_str()));
    let body = lower_chars(&chars_of(d.body.as_str()));
    let mut n: u32 = 0;
    let mut k: usize = 0;
    while k < toks.len()
        invariant
            k <= toks@.len(),
            toks@.len() * 24 <= u32::MAX,
            forall|j: int| 0 <= j < toks@.len() ==> (#[trigger] toks@[j])@.len() > 0,
            title@ == lowercase(d.title@),
            id@ == lowercase(d.id@),
            body@ == lowercase(d.body@),
            n == doc_score(*d, views(toks@).take(k as int)),
        decreases toks@.len() - k,
    {
        let t = &toks[k];
        let mut add: u32 = 0;
        if contains_chars(&title, t) {
            add = add + 8;
        }
        if contains_chars(&id, t) {
            add = add + 4;
        }
        let c = count_matches_exec(&body, t);
        if c < 12 {
            add = add + c as u32;
        } else {
            add = add + 12;
        }
        proof {
            assert(views(toks@).take(k + 1).drop_last() =~= views(toks@).take(k as int));
            assert(views(toks@).take(k + 1).last() == t@);
            lemma_doc_score_bound(*d, views(toks@).take(k as int));
        }
        n = n + add;
        k += 1;
    }
    assert(views(toks@).take(toks@.len() as int) =~= views(toks@));
    n
}

impl Corpus {
    /// Documents that match the query words, best first, at most `limit`;
    /// `source`, when given, keeps only that source (ASCII case ignored).
    /// A word scores at most 24, so the `u32` scores cannot overflow when
    /// the words times 24 fit in a `u32`.
    pub fn search<'a>(&'a self, query: &str, source: Option<&str>, limit: usize) -> (r: Vec<(u32, &'a Doc)>)
        requires
            search_tokens(query@).len() * 24 <= u32::MAX,
        ensures
            r@.len() == search_hits(self.docs@, query@, opt_str_view(source), limit as nat).len(),
            forall|k: int| 0 <= k < r@.len() ==> {
                let h = #[trigger] search_hits(self.docs@, query@, opt_str_view(source), limit as nat)[k];
                &&& r@[k].0 == h.score
                &&& h.idx < self.docs@.len()
                &&& *r@[k].1 == self.docs@[h.idx as int]
            },
    {
        let toks = search_tokens_exec(query);
        let ghost gt = views(toks@);
        let ghost src = opt_str_view(source);
        if toks.len() == 0 {
            return Vec::new();
        }
        proof {
            assert forall|k: int| 0 <= k < toks@.len() implies (#[trigger] toks@[k])@.len() > 0 by {
                assert(gt[k] == toks@[k]@);
                let mapped = words(query@).map_values(lowercase_fn());
                mapped.lemma_filter_pred(longer_than(1), k);
                if toks@[k]@.len() == 0 {
                    assert(toks@[k]@ =~= Seq::<char>::empty());
                    assert(vstd::utf8::encode_utf8(Seq::<char>::empty()) =~= Seq::<u8>::empty());
                }
            }
        }
        let src_chars: Option<Vec<char>> = match source {
            Some(s) => Some(chars_of(s)),
            None => None,
        };
        let mut cands: Vec<DocHit> = Vec::new();
        let mut i: usize = 0;
        while i < self.docs.len()
            invariant
                i <= self.docs@.len(),
                gt == views(toks@),
                gt == search_tokens(query@),
                toks@.len() * 24 <= u32::MAX,
                forall|j: int| 0 <= j < toks@.len() ==> (#[trigger] toks@[j])@.len() > 0,
                src == opt_str_view(source),
                match src_chars {
                    Some(v) => src == Some(v@),
                    None => src is None,
                },
                cands@ == search_candidates(self.docs@.take(i as int), gt, src),
            decreases self.docs@.len() - i,
        {
            let d = &self.docs[i];
            let ok = match &src_chars {
                Some(v) => eq_ignore_ascii_case_chars(&chars_of(d.source.as_str()), v),
                None => true,
            };
            proof {
                assert(self.docs@.take(i + 1).drop_last() =~= self.docs@.take(i as int));
                assert(self.docs@.take(i + 1).last() == *d);
            }
            if ok {
                let sc = score_doc(d, &toks);
                if sc > 0 {
                    cands.push(DocHit { score: sc, idx: i });
                }
            }
            i += 1;
        }
        assert(self.docs@.take(self.docs@.len() as int) =~= self.docs@);
        let mut s = sort_ranked(cands);
        if limit < s.len() {
            s.truncate(limit);
        }
        proof {
            assert forall|k: int| 0 <= k < cands@.len() implies (#[trigger] cands@[k]).idx < self.docs@.len() by {
                lemma_candidates_idx(self.docs@, gt, src, k);
            }
            crate::sort::lemma_sorted_all(cands@, |h: DocHit| h.idx < self.docs@.len());
        }
        let ghost hits = search_hits(self.docs@, query@, src, limit as nat);
        assert(s@ == hits);
        let mut r: Vec<(u32, &'a Doc)> = Vec::new();
        let mut k: usize = 0;
        while k < s.len()
            invariant
                k <= s@.len(),
                s@ == hits,
                forall|j: int| 0 <= j < s@.len() ==> (#[trigger] s@[j]).idx < self.docs@.len(),
                r@.len() == k,
                forall|j: int| 0 <= j < k ==> {
                    &&& r@[j].0 == (#[trigger] hits[j]).score
                    &&& *r@[j].1 == self.docs@[hits[j].idx as int]
                },
            decreases s@.len() - k,
        {
            let h = s[k];
            r.push((h.score, &self.docs[h.idx]));
            k += 1;
        }
        r
    }
}


/// Candidate indices point into the corpus.
proof fn lemma_candidates_idx(docs: Seq<Doc>, toks: Seq<Seq<char>>, src: Option<Seq<char>>, k: int)
    requires
        0 <= k < search_candidates(docs, toks, src).len(),
    ensures
        search_candidates(docs, toks, src)[k].idx < docs.len(),
    decreases docs.len(),
{
    if docs.len() > 0 {
        let prev = search_candidates(docs.drop_last(), toks, src);
        if k < prev.len() {
            lemma_candidates_idx(docs.drop_last(), toks, src, k);
        }
    }
}


/// The id with surrounding whitespace removed and `\` turned into `/`.
pub fn normalize_id(id: &str) -> (r: String)
    ensures
        r@ == normalized_id(id@),
{
    string_of(&replace_char(&trim_chars(&chars_of(id)), '\\', '/'))
}

/// `path` relative to `root` (or `path` itself when `root` is not a prefix),
/// with `/` as separator.
pub fn rel_unix(path: &str, root: &str) -> (r: String)
    ensures
        r@ == replace_char_spec(
            match strip_prefix_of(path@, root@) {
                Some(rel) => rel,
                None => path@,
            },
            '\\',
            '/',
        ),
{
    let rel: Vec<char> = match path_strip_prefix(path, root) {
        Some(r) => chars_of(r.as_str()),
        None => chars_of(path),
    };
    string_of(&replace_char(&rel, '\\', '/'))
}

/// The title shown for a file: its stem with `_` read as a space, or
/// `untitled` for a path without a stem.
pub fn title_from_path(path: &str) -> (r: String)
    ensures
        r@ == replace_char_spec(
            match file_stem_of(path@) {
                Some(stem) => stem,
                None => "untitled"@,
            },
            '_',
            ' ',
        ),
{
    let stem: Vec<char> = match path_file_stem(path) {
        Some(s) => chars_of(s.as_str()),
        None => chars_of("untitled"),
    };
    string_of(&replace_char(&stem, '_', ' '))
}

/// A path component that the corpus never enters: `.git`, `target`, or `..`.
pub open spec fn skipped_component(c: Seq<char>) -> bool {
    c == ".git"@ || c == "target"@ || c == ".."@
}

/// Whether a relative path goes through `.git` or `target`, or upwards.
pub fn path_is_skipped(rel: &str) -> (r: bool)
    ensures
        r == exists|k: int| 0 <= k < components_of(rel@).len() && skipped_component(
            #[trigger] components_of(rel@)[k],
        ),
{
    let comps = path_components(rel);
    let ghost cs = comps@.map_values(|s: String| s@);
    let mut i: usize = 0;
    while i < comps.len()
        invariant
            i <= comps@.len(),
            cs == comps@.map_values(|s: String| s@),
            cs == components_of(rel@),
            forall|k: int| 0 <= k < i ==> !skipped_component(#[trigger] cs[k]),
        decreases comps@.len() - i,
    {
        let c = &comps[i];
        assert(cs[i as int] == c@);
        if str_is_any3(c.as_str(), ".git", "target", "..") {
            return true;
        }
        i += 1;
    }
    false
}

/// Whether `s` is one of three literals.
fn str_is_any3(s: &str, a: &str, b: &str, c: &str) -> (r: bool)
    ensures
        r == (s@ == a@ || s@ == b@ || s@ == c@),
{
    crate::text::str_is(s, a) || crate::text::str_is(s, b) || crate::text::str_is(s, c)
}

/// A `.rs` file counts as an example: every file of `tutorial`, files under
/// `examples/` or `/story` in `gpui-component`, files under `examples/`
/// elsewhere.
pub open spec fn is_example_rs_spec(source: Seq<char>, rel: Seq<char>) -> bool {
    if source == "tutorial"@ {
        true
    } else if source == "gpui-component"@ {
        has_infix(rel, "examples/"@) || has_infix(rel, "/story"@)
    } else {
        has_infix(rel, "examples/"@)
    }
}

/// Whether a `.rs` file of a source counts as an example.
pub fn is_example_rs(source: &str, rel: &str) -> (r: bool)
    ensures
        r == is_example_rs_spec(source@, rel@),
{
    let rel_c = chars_of(rel);
    if crate::text::str_is(source, "tutorial") {
        true
    } else if crate::text::str_is(source, "gpui-component") {
        contains_chars(&rel_c, &chars_of("examples/")) || contains_chars(&rel_c, &chars_of("/story"))
    } else {
        contains_chars(&rel_c, &chars_of("examples/"))
    }
}

/// The kind of a file by extension: markdown is `doc`, example sources are
/// `example`, anything else is not indexed.
pub open spec fn classify_spec(source: Seq<char>, rel: Seq<char>, ext: Seq<char>) -> Option<Seq<char>> {
    if ext == "md"@ || ext == "MD"@ {
        Some("doc"@)
    } else if ext == "rs"@ && is_example_rs_spec(source, rel) {
        Some("example"@)
    } else {
        None
    }
}

/// The kind of an indexed file, if it is indexed.
pub fn classify(source: &str, rel: &str, ext: &str) -> (r: Option<&'static str>)
    ensures
        match r {
            Some(k) => classify_spec(source@, rel@, ext@) == Some(k@),
            None => classify_spec(source@, rel@, ext@) is None,
        },
{
    if crate::text::str_is(ext, "md") || crate::text::str_is(ext, "MD") {
        Some("doc")
    } else if crate::text::str_is(ext, "rs") && is_example_rs(source, rel) {
        Some("example")
    } else {
        None
    }
}

/// Index of the first document whose id is `q`.
fn find_id(docs: &Vec<Doc>, q: &Vec<char>) -> (r: Option<usize>)
    ensures
        match r {
            Some(i) => i < docs@.len() && first_with_id(docs@, q@) == Some(i as int),
            None => first_with_id(docs@, q@) is None,
        },
{
    let ghost p = id_is(q@);
    let mut i: usize = 0;
    while i < docs.len()
        invariant
            i <= docs@.len(),
            p == id_is(q@),
            forall|k: int| 0 <= k < i ==> !p(#[trigger] docs@[k]),
        decreases docs@.len() - i,
    {
        if chars_eq(&chars_of(docs[i].id.as_str()), q) {
            proof {
                lemma_first_where(docs@, p, i as int);
            }
            return Some(i);
        }
        i += 1;
    }
    proof {
        lemma_first_where(docs@, p, i as int);
    }
    None
}

/// Index of the first document whose id ends with `suffix`.
fn find_id_suffix(docs: &Vec<Doc>, suffix: &Vec<char>) -> (r: Option<usize>)
    ensures
        match r {
            Some(i) => i < docs@.len() && first_with_id_suffix(docs@, suffix@) == Some(i as int),
            None => first_with_id_suffix(docs@, suffix@) is None,
        },
{
    let ghost p = id_ends_with(suffix@);
    let mut i: usize = 0;
    while i < docs.len()
        invariant
            i <= docs@.len(),
            p == id_ends_with(suffix@),
            forall|k: int| 0 <= k < i ==> !p(#[trigger] docs@[k]),
        decreases docs@.len() - i,
    {
        if has_suffix(&chars_of(docs[i].id.as_str()), suffix) {
            proof {
                lemma_first_where(docs@, p, i as int);
            }
            return Some(i);
        }
        i += 1;
    }
    proof {
        lemma_first_where(docs@, p, i as int);
    }
    None
}

/// Index of the first document whose file name is `q` up to ASCII case.
fn find_file_name(docs: &Vec<Doc>, q: &Vec<char>) -> (r: Option<usize>)
    ensures
        match r {
            Some(i) => i < docs@.len() && first_with_file_name(docs@, q@) == Some(i as int),
            None => first_with_file_name(docs@, q@) is None,
        },
{
    let ghost p = file_named(q@);
    let mut i: usize = 0;
    while i < docs.len()
        invariant
            i <= docs@.len(),
            p == file_named(q@),
            forall|k: int| 0 <= k < i ==> !p(#[trigger] docs@[k]),
        decreases docs@.len() - i,
    {
        let hit = match path_file_name(docs[i].path.as_str()) {
            Some(n) => eq_ignore_ascii_case_chars(&chars_of(n.as_str()), q),
            None => false,
        };
        if hit {
            proof {
                lemma_first_where(docs@, p, i as int);
            }
            return Some(i);
        }
        i += 1;
    }
    proof {
        lemma_first_where(docs@, p, i as int);
    }
    None
}

/// Index of the last occurrence of `c`.
fn rfind_char(s: &Vec<char>, c: char) -> (r: Option<usize>)
    ensures
        match r {
            Some(i) => i < s@.len() && last_index_of(s@, c) == Some(i as int),
            None => last_index_of(s@, c) is None,
        },
{
    let mut i: usize = s.len();
    assert(s@.take(s@.len() as int) =~= s@);
    while i > 0
        invariant
            i <= s@.len(),
            last_index_of(s@, c) == last_index_of(s@.take(i as int), c),
        decreases i,
    {
        assert(s@.take(i as int).last() == s@[i - 1]);
        if s[i - 1] == c {
            return Some(i - 1);
        }
        assert(s@.take(i as int).drop_last() =~= s@.take(i - 1));
        i -= 1;
    }
    assert(s@.take(0) =~= Seq::<char>::empty());
    None
}

impl Corpus {
    /// The document with this id; else, for an id with a slash, the first
    /// whose id ends with the part from the last slash; else the first whose
    /// file name matches (ASCII case ignored).
    pub fn get(&self, id: &str) -> (r: Option<&Doc>)
        ensures
            match r {
                Some(d) => exists|i: int| get_index(self.docs@, id@) == Some(i) && 0 <= i < self.docs@.len() && *d == self.docs@[i],
                None => get_index(self.docs@, id@) is None,
            },
    {
        let q = chars_of(normalize_id(id).as_str());
        if q.len() == 0 {
            return None;
        }
        if let Some(i) = find_id(&self.docs, &q) {
            return Some(&self.docs[i]);
        }
        match rfind_char(&q, '/') {
            Some(slash) => {
                let mut suffix: Vec<char> = Vec::new();
                let mut k: usize = slash;
                while k < q.len()
                    invariant
                        slash <= k <= q@.len(),
                        suffix@ == q@.subrange(slash as int, k as int),
                    decreases q@.len() - k,
                {
                    suffix.push(q[k]);
                    assert(q@.subrange(slash as int, k + 1) =~= q@.subrange(slash as int, k as int).push(q@[k as int]));
                    k += 1;
                }
                assert(suffix@ =~= q@.skip(slash as int));
                match find_id_suffix(&self.docs, &suffix) {
                    Some(i) => Some(&self.docs[i]),
                    None => None,
                }
            },
            None => match find_file_name(&self.docs, &q) {
                Some(i) => Some(&self.docs[i]),
                None => None,
            },
        }
    }
}


impl Corpus {
    /// The example documents, ordered by id.
    pub fn examples(&self) -> (r: Vec<&Doc>)
        ensures
            r@.len() == sorted(example_keys(self.docs@)).len(),
            forall|k: int| 0 <= k < r@.len() ==> {
                let e = #[trigger] sorted(example_keys(self.docs@))[k];
                e.idx < self.docs@.len() && *r@[k] == self.docs@[e.idx as int]
            },
    {
        let mut keys: Vec<ExampleKey> = Vec::new();
        let mut i: usize = 0;
        while i < self.docs.len()
            invariant
                i <= self.docs@.len(),
                keys@ == example_keys(self.docs@.take(i as int)),
            decreases self.docs@.len() - i,
        {
            proof {
                assert(self.docs@.take(i + 1).drop_last() =~= self.docs@.take(i as int));
                assert(self.docs@.take(i + 1).last() == self.docs@[i as int]);
            }
            if chars_are(&chars_of(self.docs[i].kind.as_str()), "example") {
                keys.push(ExampleKey { id: self.docs[i].id.clone(), idx: i });
            }
            i += 1;
        }
        assert(self.docs@.take(self.docs@.len() as int) =~= self.docs@);
        proof {
            assert forall|k: int| 0 <= k < keys@.len() implies (#[trigger] keys@[k]).idx < self.docs@.len() by {
                lemma_example_keys_idx(self.docs@, k);
            }
            crate::sort::lemma_sorted_all(keys@, |e: ExampleKey| e.idx < self.docs@.len());
        }
        let ghost ks = example_keys(self.docs@);
        let sorted_keys = sort_ranked(keys);
        let mut r: Vec<&Doc> = Vec::new();
        let mut k: usize = 0;
        while k < sorted_keys.len()
            invariant
                k <= sorted_keys@.len(),
                sorted_keys@ == sorted(ks),
                ks == example_keys(self.docs@),
                forall|j: int| 0 <= j < sorted_keys@.len() ==> (#[trigger] sorted_keys@[j]).idx < self.docs@.len(),
                r@.len() == k,
                forall|j: int| 0 <= j < k ==> *r@[j] == self.docs@[(#[trigger] sorted(ks)[j]).idx as int],
            decreases sorted_keys@.len() - k,
        {
            r.push(&self.docs[sorted_keys[k].idx]);
            k += 1;
        }
        r
    }
}

// ---------------------------------------------------------------------------
// Laws of search and get.
// ---------------------------------------------------------------------------
proof fn lemma_candidates_ok(docs: Seq<Doc>, toks: Seq<Seq<char>>, src: Option<Seq<char>>, k: int)
    requires
        0 <= k < search_candidates(docs, toks, src).len(),
        docs.len() <= usize::MAX,
    ensures
        search_candidates(docs, toks, src)[k].idx < docs.len(),
        source_ok(docs[search_candidates(docs, toks, src)[k].idx as int], src),
    decreases docs.len(),
{
    if docs.len() > 0 {
        let prev = search_candidates(docs.drop_last(), toks, src);
        if k < prev.len() {
            lemma_candidates_ok(docs.drop_last(), toks, src, k);
            assert(docs.drop_last()[prev[k].idx as int] == docs[prev[k].idx as int]);
        }
    }
}

/// Search answers best first: each hit scores at least as high as every
/// later one; there are at most `limit` hits, and with a source filter every
/// hit is of that source (ASCII case ignored).
pub proof fn law_search_best_first(docs: Seq<Doc>, query: Seq<char>, source: Option<Seq<char>>, limit: nat)
    requires
        docs.len() <= usize::MAX,
    ensures
        ({
            let h = search_hits(docs, query, source, limit);
            &&& h.len() <= limit
            &&& forall|i: int, j: int| #![trigger h[i], h[j]] 0 <= i < j < h.len() ==> h[i].score >= h[j].score
            &&& forall|k: int| 0 <= k < h.len() ==> (#[trigger] h[k]).idx < docs.len() && source_ok(docs[h[k].idx as int], source)
        }),
{
    let toks = search_tokens(query);
    if toks.len() > 0 {
        let c = search_candidates(docs, toks, source);
        crate::sort::lemma_sorted_ordered(c);
        let ok = |x: DocHit| x.idx < docs.len() && source_ok(docs[x.idx as int], source);
        assert forall|k: int| 0 <= k < c.len() implies ok(#[trigger] c[k]) by {
            lemma_candidates_ok(docs, toks, source, k);
        }
        crate::sort::lemma_sorted_all(c, ok);
        let s = sorted(c);
        if limit < s.len() {
            crate::sort::lemma_ordered_take(s, limit as int);
            assert forall|k: int| 0 <= k < s.take(limit as int).len() implies ok(#[trigger] s.take(limit as int)[k]) by {
                assert(s.take(limit as int)[k] == s[k]);
            }
        }
    }
}

proof fn lemma_candidates_increasing(docs: Seq<Doc>, toks: Seq<Seq<char>>, src: Option<Seq<char>>)
    requires
        docs.len() <= usize::MAX,
    ensures
        ({
            let c = search_candidates(docs, toks, src);
            forall|a: int, b: int| #![trigger c[a], c[b]] 0 <= a < b < c.len() ==> c[a].idx < c[b].idx
        }),
    decreases docs.len(),
{
    if docs.len() > 0 {
        lemma_candidates_increasing(docs.drop_last(), toks, src);
        let p = search_candidates(docs.drop_last(), toks, src);
        let c = search_candidates(docs, toks, src);
        assert forall|a: int, b: int| #![trigger c[a], c[b]] 0 <= a < b < c.len() implies c[a].idx < c[b].idx by {
            assert(c[a] == p[a]);
            lemma_candidates_idx(docs.drop_last(), toks, src, a);
            if b < p.len() {
                assert(c[b] == p[b]);
            }
        }
    }
}

proof fn lemma_candidates_hold(docs: Seq<Doc>, toks: Seq<Seq<char>>, src: Option<Seq<char>>, n: int)
    requires
        0 <= n < docs.len(),
        docs.len() <= usize::MAX,
        source_ok(docs[n], src),
        doc_score(docs[n], toks) > 0,
    ensures
        exists|k: int|
            0 <= k < search_candidates(docs, toks, src).len() && #[trigger] search_candidates(docs, toks, src)[k]
                == (DocHit { score: doc_score(docs[n], toks) as u32, idx: n as usize }),
    decreases docs.len(),
{
    let c = search_candidates(docs, toks, src);
    let x = DocHit { score: doc_score(docs[n], toks) as u32, idx: n as usize };
    if n == docs.len() - 1 {
        assert(c[c.len() - 1] == x);
    } else {
        assert(docs.drop_last()[n] == docs[n]);
        lemma_candidates_hold(docs.drop_last(), toks, src, n);
        let p = search_candidates(docs.drop_last(), toks, src);
        let k = choose|k: int| 0 <= k < p.len() && #[trigger] p[k] == x;
        assert(c[k] == p[k]);
    }
}

/// Search keeps corpus order among equal scores and cuts at `limit`: of two
/// hits with the same score the earlier document comes first, and a document
/// of the source asked for that scores above zero is left out only when the
/// answer already holds `limit` hits, each scoring at least as high.
pub proof fn law_search_stable_and_complete(docs: Seq<Doc>, query: Seq<char>, source: Option<Seq<char>>, limit: nat)
    requires
        docs.len() <= usize::MAX,
    ensures
        ({
            let h = search_hits(docs, query, source, limit);
            let toks = search_tokens(query);
            &&& forall|i: int, j: int| #![trigger h[i], h[j]] 0 <= i < j < h.len() && h[i].score == h[j].score ==> h[i].idx < h[j].idx
            &&& forall|n: int|
                #![trigger docs[n]]
                0 <= n < docs.len() && toks.len() > 0 && source_ok(docs[n], source) && doc_score(docs[n], toks) > 0 && !(exists|k: int|
                    0 <= k < h.len() && #[trigger] h[k].idx == n) ==> h.len() == limit && forall|k: int|
                    0 <= k < h.len() ==> (#[trigger] h[k]).score >= (doc_score(docs[n], toks) as u32)
        }),
{
    let toks = search_tokens(query);
    let h = search_hits(docs, query, source, limit);
    if toks.len() > 0 {
        let c = search_candidates(docs, toks, source);
        let s = sorted(c);
        lemma_candidates_increasing(docs, toks, source);
        crate::sort::lemma_sorted_stable(c, |x: DocHit| x.idx as int);
        crate::sort::lemma_sorted_all(c, |x: DocHit| true);
        assert forall|i: int, j: int| #![trigger h[i], h[j]] 0 <= i < j < h.len() && h[i].score == h[j].score implies h[i].idx
            < h[j].idx by {
            assert(h[i] == s[i] && h[j] == s[j]);
        }
        assert forall|n: int|
            #![trigger docs[n]]
            0 <= n < docs.len() && source_ok(docs[n], source) && doc_score(docs[n], toks) > 0 && !(exists|k: int|
                0 <= k < h.len() && #[trigger] h[k].idx == n) implies h.len() == limit && forall|k: int|
            0 <= k < h.len() ==> (#[trigger] h[k]).score >= (doc_score(docs[n], toks) as u32) by {
            let x = DocHit { score: doc_score(docs[n], toks) as u32, idx: n as usize };
            lemma_candidates_hold(docs, toks, source, n);
            let k0 = choose|k: int| 0 <= k < c.len() && #[trigger] c[k] == x;
            crate::sort::lemma_sorted_prefix_complete(c, limit, k0);
            if exists|j: int| 0 <= j < s.len() && j < limit && s[j] == c[k0] {
                let j = choose|j: int| 0 <= j < s.len() && j < limit && s[j] == c[k0];
                assert(h[j] == s[j]);
                assert(h[j].idx == n);
            }
            assert forall|k: int| 0 <= k < h.len() implies (#[trigger] h[k]).score >= x.score by {
                assert(h[k] == s[k]);
            }
        }
    }
}

/// An id that some document has exactly is answered with the first such
/// document, before any suffix or file-name match.
pub proof fn law_get_exact_id_first(docs: Seq<Doc>, id: Seq<char>, i: int)
    requires
        0 <= i < docs.len(),
        docs[i].id@ == normalized_id(id),
        normalized_id(id).len() > 0,
    ensures
        get_index(docs, id) == first_with_id(docs, normalized_id(id)),
        get_index(docs, id) matches Some(j) && 0 <= j <= i && docs[j].id@ == normalized_id(id),
{
    lemma_first_with_id_some(docs, normalized_id(id), i);
}

/// Ids that search answers with can be passed to `get`: for every hit whose
/// id is already in normal form (trimmed, `/` as separator, not empty), `get`
/// answers a document with that same id.
pub proof fn law_search_ids_get_back(
    docs: Seq<Doc>,
    query: Seq<char>,
    source: Option<Seq<char>>,
    limit: nat,
    k: int,
)
    requires
        docs.len() <= usize::MAX,
        0 <= k < search_hits(docs, query, source, limit).len(),
        ({
            let id = docs[search_hits(docs, query, source, limit)[k].idx as int].id@;
            normalized_id(id) == id && id.len() > 0
        }),
    ensures
        ({
            let id = docs[search_hits(docs, query, source, limit)[k].idx as int].id@;
            get_index(docs, id) matches Some(j) && 0 <= j < docs.len() && docs[j].id@ == id
        }),
{
    law_search_best_first(docs, query, source, limit);
    let h = search_hits(docs, query, source, limit)[k];
    assert(h.idx < docs.len());
    law_get_exact_id_first(docs, docs[h.idx as int].id@, h.idx as int);
}

proof fn lemma_example_keys_props(docs: Seq<Doc>)
    requires
        docs.len() <= usize::MAX,
    ensures
        ({
            let e = example_keys(docs);
            &&& forall|k: int|
                0 <= k < e.len() ==> (#[trigger] e[k]).idx < docs.len() && docs[e[k].idx as int].kind@ == "example"@
                    && e[k].id == docs[e[k].idx as int].id
            &&& forall|a: int, b: int| #![trigger e[a], e[b]] 0 <= a < b < e.len() ==> e[a].idx < e[b].idx
            &&& forall|i: int|
                0 <= i < docs.len() && (#[trigger] docs[i]).kind@ == "example"@ ==> exists|k: int|
                    0 <= k < e.len() && #[trigger] e[k].idx == i
        }),
    decreases docs.len(),
{
    if docs.len() > 0 {
        let d0 = docs.drop_last();
        lemma_example_keys_props(d0);
        let p = example_keys(d0);
        let e = example_keys(docs);
        assert forall|k: int|
            0 <= k < e.len() implies (#[trigger] e[k]).idx < docs.len() && docs[e[k].idx as int].kind@ == "example"@
                && e[k].id == docs[e[k].idx as int].id by {
            if k < p.len() {
                assert(e[k] == p[k]);
                assert(d0[p[k].idx as int] == docs[p[k].idx as int]);
            }
        }
        assert forall|a: int, b: int| #![trigger e[a], e[b]] 0 <= a < b < e.len() implies e[a].idx < e[b].idx by {
            assert(e[a] == p[a]);
            if b < p.len() {
                assert(e[b] == p[b]);
            }
        }
        assert forall|i: int|
            0 <= i < docs.len() && (#[trigger] docs[i]).kind@ == "example"@ implies exists|k: int|
                0 <= k < e.len() && #[trigger] e[k].idx == i by {
            if i < docs.len() - 1 {
                assert(d0[i] == docs[i]);
                let k = choose|k: int| 0 <= k < p.len() && #[trigger] p[k].idx == i;
                assert(e[k] == p[k]);
            } else {
                assert(e[e.len() - 1].idx == i);
            }
        }
    }
}

/// The examples of a corpus are exactly its documents of kind `example`,
/// each once, in id order; documents with the same id keep their corpus
/// order.
pub proof fn law_examples_by_id(docs: Seq<Doc>)
    requires
        docs.len() <= usize::MAX,
    ensures
        ({
            let e = sorted(example_keys(docs));
            &&& forall|a: int, b: int|
                #![trigger e[a], e[b]]
                0 <= a < b < e.len() ==> lex_le(e[a].id@, e[b].id@) && (e[a].id@ == e[b].id@ ==> e[a].idx < e[b].idx)
            &&& forall|a: int, b: int| #![trigger e[a], e[b]] 0 <= a < e.len() && 0 <= b < e.len() && a != b ==> e[a].idx != e[b].idx
            &&& forall|k: int|
                0 <= k < e.len() ==> (#[trigger] e[k]).idx < docs.len() && docs[e[k].idx as int].kind@ == "example"@
                    && e[k].id == docs[e[k].idx as int].id
            &&& forall|i: int|
                0 <= i < docs.len() && (#[trigger] docs[i]).kind@ == "example"@ ==> exists|k: int|
                    0 <= k < e.len() && #[trigger] e[k].idx == i
        }),
{
    let keys = example_keys(docs);
    let e = sorted(keys);
    assert forall|a: ExampleKey, b: ExampleKey| #[trigger] a.ranks_le(&b) || b.ranks_le(&a) by {
        crate::text::lemma_lex_total(a.id@, b.id@);
    }
    assert forall|a: ExampleKey, b: ExampleKey, c: ExampleKey| #[trigger] a.ranks_le(&b) && #[trigger] b.ranks_le(&c)
        implies a.ranks_le(&c) by {
        crate::text::lemma_lex_trans(a.id@, b.id@, c.id@);
    }
    lemma_example_keys_props(docs);
    crate::sort::lemma_sorted_ordered(keys);
    crate::sort::lemma_sorted_stable(keys, |x: ExampleKey| x.idx as int);
    crate::sort::lemma_sorted_all(
        keys,
        |x: ExampleKey| x.idx < docs.len() && docs[x.idx as int].kind@ == "example"@ && x.id == docs[x.idx as int].id,
    );
    assert forall|a: int, b: int|
        #![trigger e[a], e[b]]
        0 <= a < b < e.len() implies lex_le(e[a].id@, e[b].id@) && (e[a].id@ == e[b].id@ ==> e[a].idx < e[b].idx) by {
        crate::text::lemma_lex_total(e[b].id@, e[a].id@);
    }
    assert forall|a: int, b: int| #![trigger e[a], e[b]] 0 <= a < e.len() && 0 <= b < e.len() && a != b implies e[a].idx
        != e[b].idx by {
        let (x, y) = if a < b { (a, b) } else { (b, a) };
        crate::text::lemma_lex_total(e[y].id@, e[x].id@);
        if e[x].idx == e[y].idx {
            assert(e[x].id == e[y].id);
        }
    }
    assert forall|i: int|
        0 <= i < docs.len() && (#[trigger] docs[i]).kind@ == "example"@ implies exists|k: int|
            0 <= k < e.len() && #[trigger] e[k].idx == i by {
        let k0 = choose|k: int| 0 <= k < keys.len() && #[trigger] keys[k].idx == i;
        crate::sort::lemma_sorted_contains(keys, k0);
        let j = choose|j: int| 0 <= j < e.len() && e[j] == keys[k0];
        assert(e[j].idx == i);
    }
}

proof fn lemma_first_with_id_some(docs: Seq<Doc>, q: Seq<char>, i: int)
    requires
        0 <= i < docs.len(),
        docs[i].id@ == q,
    ensures
        first_with_id(docs, q) matches Some(j) && 0 <= j <= i && docs[j].id@ == q,
    decreases docs.len(),
{
    if docs[0].id@ != q {
        assert(docs.drop_first()[i - 1] == docs[i]);
        lemma_first_with_id_some(docs.drop_first(), q, i - 1);
        let j = first_with_id(docs.drop_first(), q)->0;
        assert(docs.drop_first()[j] == docs[j + 1]);
    }
}

// ---------------------------------------------------------------------------
// Building the corpus.
// ---------------------------------------------------------------------------
/// The bundled notes on current GPUI APIs, always part of the corpus.
pub const GOTCHAS_BODY: &'static str = "# GPUI gotchas (2026)

Pin this. GPUI APIs move with Zed. Prefer **current Zed `crates/gpui` examples** over blog posts from 2023–2024.

## Boot

Current pattern (Zed main):

```rust
use gpui::*;
use gpui_platform::application;

fn main() {
    application().run(|cx: &mut App| {
        cx.open_window(WindowOptions::default(), |_window, cx| {
            cx.new(|_| HelloWorld)
        })
        .unwrap();
    });
}
```

Older tutorials use `Application::new().run(...)`. That may still compile on some crates.io snapshots (`gpui` 0.2.x) and **will not** match Zed-git `gpui` + `gpui_platform`.

## Cargo.toml (Zed-git, recommended)

```toml
[dependencies]
gpui = { git = \"https://github.com/zed-industries/zed\" }
gpui_platform = { git = \"https://github.com/zed-industries/zed\", features = [\"font-kit\", \"wayland\", \"x11\"] }
```

Linux: need `gpui_platform` features for Wayland/X11 + fonts.

## gpui-component

Call `gpui_component::init(cx)` **before** opening windows that use its widgets.
The window root should be their `Root` wrapper (see hello_world example in that repo).

```toml
gpui-component = { git = \"https://github.com/longbridge/gpui-component\" }
```

## Mental model

- **Entity&lt;T&gt;** — owned state. `cx.new(|cx| ...)`.
- **Render** — view: `fn render(&mut self, window: &mut Window, cx: &mut Context&lt;Self&gt;) -> impl IntoElement`
- **div()** — Tailwind-ish builder: `.flex()`, `.v_flex()`, `.size_full()`, `.bg(...)`, `.child(...)`
- Layout is **Taffy flex/grid**, not immediate-mode cursor layout.
- Notify-driven: idle CPU can be ~0. Call `cx.notify()` after mutating.

## Actions / keys

Define with `actions!`, bind with `cx.bind_keys([KeyBinding::new(\"ctrl-s\", Save, None)])`, handle on the focused entity.

## Lists

- `uniform_list` — equal-height rows, cheapest
- `list` + `ListState` — variable height, virtualized

## Custom drawing (graph canvas)

Implement `Element`: `request_layout` → `prepaint` → `paint`. Paint quads/paths on `Window`. This is how a node graph should work — not nested `div`s for every wire.

## Do not

- Copy `eframe`/`egui` patterns (immediate `ui.horizontal`, memory IDs).
- Assume crates.io `gpui = \"0.1\"` docs still apply.
- Clone the **full** Zed repo into an app; depend on git + use `crates/gpui` examples as the source of truth.
";

/// The bundled gotchas document.
pub fn gotchas_doc() -> (d: Doc)
    ensures
        d.id@ == "gotchas"@,
        d.source@ == "gotchas"@,
        d.kind@ == "doc"@,
        d.title@ == "GPUI gotchas (current APIs)"@,
        d.path@ == "gotchas.md"@,
        d.body@ == GOTCHAS_BODY@,
{
    Doc::new("gotchas", "gotchas", "doc", "GPUI gotchas (current APIs)", "gotchas.md", GOTCHAS_BODY)
}

/// What a file of a source becomes in the corpus, before its body is read.
#[derive(Clone, Debug)]
pub struct FileMeta {
    pub id: String,
    pub kind: &'static str,
    pub title: String,
}

/// The file's path relative to the root (the path itself when the root is
/// not a prefix).
pub open spec fn rel_of(path: Seq<char>, root: Seq<char>) -> Seq<char> {
    match strip_prefix_of(path, root) {
        Some(r) => r,
        None => path,
    }
}

/// The title of a file: its stem with `_` read as a space, or `untitled`.
pub open spec fn title_of(path: Seq<char>) -> Seq<char> {
    replace_char_spec(
        match file_stem_of(path) {
            Some(stem) => stem,
            None => "untitled"@,
        },
        '_',
        ' ',
    )
}

/// Whether and how a file under a source's root is indexed: not when it has
/// no extension or lies under `.git`, `target` or `..`; else by its
/// extension (`classify_spec`), with id `<source>/<relative path>`.
pub open spec fn file_meta_spec(source: Seq<char>, root: Seq<char>, path: Seq<char>) -> Option<
    (Seq<char>, Seq<char>, Seq<char>),
> {
    let rel = rel_of(path, root);
    let rel_s = normalized_id(rel);
    match extension_of(path) {
        None => None,
        Some(ext) => if exists|k: int|
            0 <= k < components_of(rel).len() && skipped_component(#[trigger] components_of(rel)[k]) {
            None
        } else {
            match classify_spec(source, rel_s, ext) {
                Some(kind) => Some((source + "/"@ + rel_s, kind, title_of(path))),
                None => None,
            }
        },
    }
}

/// The plain values of a file's metadata.
pub open spec fn meta_view(m: FileMeta) -> (Seq<char>, Seq<char>, Seq<char>) {
    (m.id@, m.kind@, m.title@)
}

/// Decides whether a file of a source is indexed, and as what (see
/// `file_meta_spec`).
pub fn file_meta(source: &str, root: &str, path: &str) -> (r: Option<FileMeta>)
    ensures
        match r {
            Some(m) => file_meta_spec(source@, root@, path@) == Some(meta_view(m)),
            None => file_meta_spec(source@, root@, path@) is None,
        },
{
    let ext = match path_extension(path) {
        Some(e) => e,
        None => return None,
    };
    let rel = rel_unix_raw(path, root);
    if path_is_skipped(rel.as_str()) {
        return None;
    }
    let rel_s = normalize_id(rel.as_str());
    let kind = match classify(source, rel_s.as_str(), ext.as_str()) {
        Some(k) => k,
        None => return None,
    };
    let mut id = chars_of(source);
    id.push('/');
    crate::text::push_str_chars(&mut id, rel_s.as_str());
    proof {
        reveal_strlit("/");
        assert(id@ =~= source@ + "/"@ + rel_s@);
    }
    Some(FileMeta { id: string_of(&id), kind, title: title_from_path(path) })
}

/// The path relative to the root, as given by `Path::strip_prefix`.
fn rel_unix_raw(path: &str, root: &str) -> (r: String)
    ensures
        r@ == rel_of(path@, root@),
{
    match path_strip_prefix(path, root) {
        Some(r) => r,
        None => path.to_string(),
    }
}

/// Adds the file to the documents unless its body is blank.
pub fn push_file(docs: &mut Vec<Doc>, meta: &FileMeta, source: &str, path: &str, body: &str)
    ensures
        trim(body@).len() == 0 ==> final(docs)@ == old(docs)@,
        trim(body@).len() > 0 ==> {
            &&& final(docs)@.len() == old(docs)@.len() + 1
            &&& final(docs)@.take(old(docs)@.len() as int) == old(docs)@
            &&& final(docs)@.last().id@ == meta.id@
            &&& final(docs)@.last().source@ == source@
            &&& final(docs)@.last().kind@ == meta.kind@
            &&& final(docs)@.last().title@ == meta.title@
            &&& final(docs)@.last().path@ == path@
            &&& final(docs)@.last().body@ == body@
        },
{
    if trim_chars(&chars_of(body)).len() == 0 {
        return;
    }
    let d = Doc::new(meta.id.as_str(), source, meta.kind, meta.title.as_str(), path, body);
    docs.push(d);
    assert(docs@.take(old(docs)@.len() as int) =~= old(docs)@);
}

} // verus!
