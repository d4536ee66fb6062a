//! The text of the server's tool replies, computed from the loaded indexes
//! and the tool's parameters.

pub mod examples;

use vstd::prelude::*;

use crate::index::{get_index, opt_str_view, search_hits, snippet_of, Corpus, Doc, DocHit};
use crate::server::examples::{
    clip, clip_text, example_docs, example_payload, payload_result, stem_cuttable,
    stem_cuttable_exec, text_result, BODY_LIMIT,
};
use crate::api_index::{kind_debug, lookup, lookup_hits, ApiIndex, ApiSymbol, SymbolHit};
use crate::example_index::{example_hits, file_is, find_examples_multi, get_file, ExampleEntry, ExampleHit, ExampleIndex};
use crate::sort::{sort_ranked, sorted, Ranked};
use crate::curated::{recipe_search_order, Curated, DepMode, Recipe};
use crate::error_decoder::{decode, decode_result, diag_views, builtin_table, DiagView, Diagnosis};
use crate::index::first_where;
use crate::sources::Remote;
use crate::sync::{revs_comparable, same_git_rev, same_rev};
use crate::text::{
    chars_of, debug_str, debug_str_list, decimal, has_infix, lex_le, lex_le_exec, lower_chars, lowercase, quoted_list, decimal_chars, join_seqs, join_strings, push_chars,
    push_str_chars, quoted, string_of, string_views, views,
};

verus! {

/// A count limit from the parameters: the default when absent, then held
/// between `lo` and `hi`.
pub open spec fn limit_spec(limit: Option<u32>, default: u32, lo: u32, hi: u32) -> nat {
    let v = match limit {
        Some(l) => l,
        None => default,
    };
    if v < lo {
        lo as nat
    } else if v > hi {
        hi as nat
    } else {
        v as nat
    }
}

/// The effective limit (see `limit_spec`).
pub fn clamp_limit(limit: Option<u32>, default: u32, lo: u32, hi: u32) -> (r: usize)
    requires
        lo <= hi,
    ensures
        r == limit_spec(limit, default, lo, hi),
{
    let v = match limit {
        Some(l) => l,
        None => default,
    };
    if v < lo {
        lo as usize
    } else if v > hi {
        hi as usize
    } else {
        v as usize
    }
}

// ---------------------------------------------------------------------------
// Corpus tools.
// ---------------------------------------------------------------------------
/// The number of documents of a source.
pub open spec fn count_source(docs: Seq<Doc>, id: Seq<char>) -> nat
    decreases docs.len(),
{
    if docs.len() == 0 {
        0
    } else {
        count_source(docs.drop_last(), id) + if docs.last().source@ == id {
            1nat
        } else {
            0nat
        }
    }
}

/// The number of documents of a source.
fn count_source_exec(docs: &Vec<Doc>, id: &str) -> (n: usize)
    ensures
        n == count_source(docs@, id@),
{
    let idc = chars_of(id);
    let mut n: usize = 0;
    let mut i: usize = 0;
    while i < docs.len()
        invariant
            i <= docs@.len(),
            idc@ == id@,
            n == count_source(docs@.take(i as int), id@),
            n <= i,
        decreases docs@.len() - i,
    {
        proof {
            assert(docs@.take(i + 1).drop_last() =~= docs@.take(i as int));
            assert(docs@.take(i + 1).last() == docs@[i as int]);
        }
        if crate::text::chars_eq(&chars_of(docs[i].source.as_str()), &idc) {
            n = n + 1;
        }
        i += 1;
    }
    assert(docs@.take(docs@.len() as int) =~= docs@);
    n
}

/// The id is among the missing clones.
pub open spec fn is_missing(missing: Seq<String>, id: Seq<char>) -> bool {
    exists|i: int| 0 <= i < missing.len() && (#[trigger] missing[i])@ == id
}

/// The line of one remote in the source list.
pub open spec fn remote_line(docs: Seq<Doc>, missing: Seq<String>, r: Remote) -> Seq<char> {
    "- "@ + r.id@ + " — "@ + r.title@ + " ("@ + decimal(count_source(docs, r.id@)) + " files)"@ + if is_missing(
        missing,
        r.id@,
    ) {
        " — not cloned; call sync"@
    } else {
        Seq::<char>::empty()
    }
}

/// The source list: the document count, a line per remote, then the bundled
/// gotchas.
pub open spec fn sources_text(docs: Seq<Doc>, missing: Seq<String>, cache: Seq<char>, remotes: Seq<Remote>) -> Seq<char> {
    join_seqs(
        seq![decimal(docs.len()) + " documents in "@ + cache]
            + remotes.map_values(|r: Remote| remote_line(docs, missing, r))
            + seq!["- gotchas — current API pitfalls ("@ + decimal(count_source(docs, "gotchas"@)) + " files)"@],
        "\n"@,
    )
}

/// Whether the id is among the missing clones.
fn is_missing_exec(missing: &Vec<String>, id: &str) -> (r: bool)
    ensures
        r == is_missing(missing@, id@),
{
    let idc = chars_of(id);
    let mut i: usize = 0;
    while i < missing.len()
        invariant
            i <= missing@.len(),
            idc@ == id@,
            forall|k: int| 0 <= k < i ==> (#[trigger] missing@[k])@ != id@,
        decreases missing@.len() - i,
    {
        if crate::text::chars_eq(&chars_of(missing[i].as_str()), &idc) {
            return true;
        }
        i += 1;
    }
    false
}

/// The reply of `list_sources` (see `sources_text`).
pub fn list_sources_text(corpus: &Corpus, cache: &str, remotes: &Vec<Remote>) -> (r: String)
    ensures
        r@ == sources_text(corpus.docs@, corpus.missing@, cache@, remotes@),
{
    let mut lines: Vec<String> = Vec::new();
    let mut first = decimal_chars(corpus.docs.len() as u64);
    push_str_chars(&mut first, " documents in ");
    push_str_chars(&mut first, cache);
    lines.push(string_of(&first));
    let ghost head = seq![decimal(corpus.docs@.len()) + " documents in "@ + cache@];
    let ghost rl = remotes@.map_values(|r: Remote| remote_line(corpus.docs@, corpus.missing@, r));
    assert(string_views(lines@) =~= head);
    let mut i: usize = 0;
    while i < remotes.len()
        invariant
            i <= remotes@.len(),
            rl == remotes@.map_values(|r: Remote| remote_line(corpus.docs@, corpus.missing@, r)),
            string_views(lines@) == head + rl.take(i as int),
        decreases remotes@.len() - i,
    {
        let r = &remotes[i];
        let n = count_source_exec(&corpus.docs, r.id);
        let mut line = chars_of("- ");
        push_str_chars(&mut line, r.id);
        push_str_chars(&mut line, " — ");
        push_str_chars(&mut line, r.title);
        push_str_chars(&mut line, " (");
        push_chars(&mut line, &decimal_chars(n as u64));
        push_str_chars(&mut line, " files)");
        if is_missing_exec(&corpus.missing, r.id) {
            push_str_chars(&mut line, " — not cloned; call sync");
        } else {
            assert(line@ =~= line@ + Seq::<char>::empty());
        }
        let ls = string_of(&line);
        let ghost before = lines@;
        lines.push(ls);
        proof {
            assert(ls@ == rl[i as int]);
            assert(string_views(lines@) =~= string_views(before).push(ls@));
            assert(rl.take(i + 1) =~= rl.take(i as int).push(rl[i as int]));
        }
        i += 1;
    }
    assert(rl.take(remotes@.len() as int) =~= rl);
    let g = count_source_exec(&corpus.docs, "gotchas");
    let mut last = chars_of("- gotchas — current API pitfalls (");
    push_chars(&mut last, &decimal_chars(g as u64));
    push_str_chars(&mut last, " files)");
    let ls = string_of(&last);
    let ghost before = lines@;
    lines.push(ls);
    assert(string_views(lines@) =~= string_views(before).push(ls@));
    assert(string_views(lines@) =~= head + rl + seq![
        "- gotchas — current API pitfalls ("@ + decimal(count_source(corpus.docs@, "gotchas"@)) + " files)"@,
    ]);
    join_strings(&lines, "\n")
}

/// The text of one search hit: score, id, kind, path, and the clipped
/// snippet.
pub open spec fn hit_text(d: Doc, score: u32, query: Seq<char>) -> Seq<char> {
    "["@ + decimal(score as nat) + "] "@ + d.id@ + " ("@ + d.kind@ + ")\n  "@ + d.path@ + "\n  "@
        + clip_text(snippet_of(d.body@, query), 220)
}

/// The reply of `search`: the hits, best first, separated by blank lines;
/// an error when there is none.
pub open spec fn search_reply_text(
    docs: Seq<Doc>,
    query: Seq<char>,
    source: Option<Seq<char>>,
    limit: Option<u32>,
) -> Result<Seq<char>, Seq<char>> {
    let hits = search_hits(docs, query, source, limit_spec(limit, 8, 1, 20));
    if hits.len() == 0 {
        Err(
            "No hits for "@ + debug_str(query)
                + ". Try list_sources, then sync if counts are 0. Sources: gotchas, book, tutorial, gpui-component, zed-gpui, awesome."@,
        )
    } else {
        Ok(join_seqs(hits.map_values(|h: DocHit| hit_text(docs[h.idx as int], h.score, query)), "\n\n"@))
    }
}

/// The search tool answers at most its limit of hits: 8 when no limit is
/// given, the given limit held between 1 and 20 otherwise.
pub proof fn law_search_reply_limit(docs: Seq<Doc>, query: Seq<char>, source: Option<Seq<char>>, limit: Option<u32>)
    requires
        docs.len() <= usize::MAX,
    ensures
        limit is None ==> limit_spec(limit, 8, 1, 20) == 8,
        limit matches Some(l) ==> limit_spec(limit, 8, 1, 20) == (if l < 1 { 1 } else if l > 20 { 20 } else { l as nat }),
        1 <= limit_spec(limit, 8, 1, 20) <= 20,
        search_hits(docs, query, source, limit_spec(limit, 8, 1, 20)).len() <= limit_spec(limit, 8, 1, 20),
{
    crate::index::law_search_best_first(docs, query, source, limit_spec(limit, 8, 1, 20));
}

/// Runs `search` (see `search_reply_text`): `None` when the query has so many
/// words that a document's `u32` score could overflow (more than
/// `u32::MAX / 24`), else the reply.
pub fn search_reply(corpus: &Corpus, query: &str, source: Option<&str>, limit: Option<u32>) -> (r: Option<
    Result<String, String>,
>)
    ensures
        r is None <==> !(crate::index::search_tokens(query@).len() * 24 <= u32::MAX),
        r matches Some(x) ==> text_result(x) == search_reply_text(corpus.docs@, query@, opt_str_view(source), limit),
{
    let toks = crate::index::search_tokens_exec(query);
    assert(views(toks@).len() == toks@.len());
    if toks.len() > 178_956_970 {
        return None;
    }
    Some(search_text(corpus, query, source, limit))
}

/// The reply of `search`; the limit defaults to 8 and is held between 1 and
/// 20.
fn search_text(corpus: &Corpus, query: &str, source: Option<&str>, limit: Option<u32>) -> (r: Result<
    String,
    String,
>)
    requires
        crate::index::search_tokens(query@).len() * 24 <= u32::MAX,
    ensures
        text_result(r) == search_reply_text(corpus.docs@, query@, opt_str_view(source), limit),
{
    let lim = clamp_limit(limit, 8, 1, 20);
    let hits = corpus.search(query, source, lim);
    let ghost hs = search_hits(corpus.docs@, query@, opt_str_view(source), lim as nat);
    if hits.len() == 0 {
        let mut msg = chars_of("No hits for ");
        push_str_chars(&mut msg, quoted(query).as_str());
        push_str_chars(
            &mut msg,
            ". Try list_sources, then sync if counts are 0. Sources: gotchas, book, tutorial, gpui-component, zed-gpui, awesome.",
        );
        return Err(string_of(&msg));
    }
    let ghost texts = hs.map_values(|h: DocHit| hit_text(corpus.docs@[h.idx as int], h.score, query@));
    let mut parts: Vec<String> = Vec::new();
    let mut k: usize = 0;
    while k < hits.len()
        invariant
            k <= hits@.len(),
            hits@.len() == hs.len(),
            hs == search_hits(corpus.docs@, query@, opt_str_view(source), lim as nat),
            texts == hs.map_values(|h: DocHit| hit_text(corpus.docs@[h.idx as int], h.score, query@)),
            forall|j: int| 0 <= j < hits@.len() ==> {
                let h = #[trigger] hs[j];
                &&& hits@[j].0 == h.score
                &&& h.idx < corpus.docs@.len()
                &&& *hits@[j].1 == corpus.docs@[h.idx as int]
            },
            string_views(parts@) == texts.take(k as int),
        decreases hits@.len() - k,
    {
        let (score, d) = hits[k];
        let mut t = chars_of("[");
        push_chars(&mut t, &decimal_chars(score as u64));
        push_str_chars(&mut t, "] ");
        push_str_chars(&mut t, d.id.as_str());
        push_str_chars(&mut t, " (");
        push_str_chars(&mut t, d.kind.as_str());
        push_str_chars(&mut t, ")\n  ");
        push_str_chars(&mut t, d.path.as_str());
        push_str_chars(&mut t, "\n  ");
        push_str_chars(&mut t, clip(d.snippet(query).as_str(), 220).as_str());
        let ts = string_of(&t);
        let ghost before = parts@;
        parts.push(ts);
        proof {
            let _ = hs[k as int];
            assert(ts@ == texts[k as int]);
            assert(string_views(parts@) =~= string_views(before).push(ts@));
            assert(texts.take(k + 1) =~= texts.take(k as int).push(texts[k as int]));
        }
        k += 1;
    }
    assert(texts.take(hits@.len() as int) =~= texts);
    Ok(join_strings(&parts, "\n\n"))
}

/// The reply of `get`: the document with its body clipped, or an error.
pub open spec fn get_reply_text(docs: Seq<Doc>, id: Seq<char>) -> Result<Seq<char>, Seq<char>> {
    match get_index(docs, id) {
        Some(i) => Ok(
            "# "@ + docs[i].id@ + " ("@ + docs[i].kind@ + ")\n# "@ + docs[i].path@ + "\n\n"@ + clip_text(
                docs[i].body@,
                BODY_LIMIT as nat,
            ),
        ),
        None => Err("Unknown id "@ + debug_str(id) + ". Search first; ids look like book/src/elements/div.md"@),
    }
}

/// Runs `get` (see `get_reply_text`).
pub fn get_reply(corpus: &Corpus, id: &str) -> (r: Result<String, String>)
    ensures
        text_result(r) == get_reply_text(corpus.docs@, id@),
{
    match corpus.get(id) {
        Some(d) => {
            let mut t = chars_of("# ");
            push_str_chars(&mut t, d.id.as_str());
            push_str_chars(&mut t, " (");
            push_str_chars(&mut t, d.kind.as_str());
            push_str_chars(&mut t, ")\n# ");
            push_str_chars(&mut t, d.path.as_str());
            push_str_chars(&mut t, "\n\n");
            push_str_chars(&mut t, clip(d.body.as_str(), BODY_LIMIT).as_str());
            Ok(string_of(&t))
        },
        None => {
            let mut msg = chars_of("Unknown id ");
            push_str_chars(&mut msg, quoted(id).as_str());
            push_str_chars(&mut msg, ". Search first; ids look like book/src/elements/div.md");
            Err(string_of(&msg))
        },
    }
}

/// The line of an example in a list: id and title.
pub open spec fn example_line(d: Doc) -> Seq<char> {
    d.id@ + "  —  "@ + d.title@
}

/// The reply of `list_examples`: one line per example, ordered by id; an
/// error when there is none.
pub open spec fn list_examples_text(docs: Seq<Doc>) -> Result<Seq<char>, Seq<char>> {
    let ex = example_docs(docs);
    if ex.len() == 0 {
        Err("No examples indexed. Call sync."@)
    } else {
        Ok(join_seqs(ex.map_values(|d: Doc| example_line(d)), "\n"@))
    }
}

/// Runs `list_examples` (see `list_examples_text`).
pub fn list_examples_reply(corpus: &Corpus) -> (r: Result<String, String>)
    ensures
        text_result(r) == list_examples_text(corpus.docs@),
{
    let exs = corpus.examples();
    let ghost ed = example_docs(corpus.docs@);
    let ghost ls = ed.map_values(|d: Doc| example_line(d));
    assert(crate::server::examples::derefs(exs@) =~= ed);
    if exs.len() == 0 {
        return Err("No examples indexed. Call sync.".to_string());
    }
    let mut lines: Vec<String> = Vec::new();
    let mut k: usize = 0;
    while k < exs.len()
        invariant
            k <= exs@.len(),
            crate::server::examples::derefs(exs@) == ed,
            ls == ed.map_values(|d: Doc| example_line(d)),
            string_views(lines@) == ls.take(k as int),
        decreases exs@.len() - k,
    {
        let d = exs[k];
        let mut t = chars_of(d.id.as_str());
        push_str_chars(&mut t, "  —  ");
        push_str_chars(&mut t, d.title.as_str());
        let ts = string_of(&t);
        let ghost before = lines@;
        lines.push(ts);
        proof {
            assert(ed[k as int] == *d);
            assert(string_views(lines@) =~= string_views(before).push(ts@));
            assert(ls.take(k + 1) =~= ls.take(k as int).push(ls[k as int]));
        }
        k += 1;
    }
    assert(ls.take(exs@.len() as int) =~= ls);
    Ok(join_strings(&lines, "\n"))
}

/// Runs `get_example`: `None` when the name ends in `.rs` (ASCII case aside)
/// but its last three bytes cannot be cut off, else the answer of
/// `example_payload`.
pub fn get_example(corpus: &Corpus, name: &str) -> (r: Option<Result<String, String>>)
    ensures
        r is None <==> !stem_cuttable(name@),
        r matches Some(x) ==> text_result(x) == payload_result(corpus.docs@, name@),
{
    if stem_cuttable_exec(name) {
        Some(example_payload(corpus, name))
    } else {
        None
    }
}

// ---------------------------------------------------------------------------
// Symbol index tools.
// ---------------------------------------------------------------------------
/// `s` joined without separator.
pub open spec fn concat(parts: Seq<Seq<char>>) -> Seq<char> {
    join_seqs(parts, Seq::<char>::empty())
}

/// ` on <owner>` for a symbol with an owner.
pub open spec fn owner_on(o: Option<String>) -> Seq<char> {
    match o {
        Some(s) => " on "@ + s@,
        None => Seq::<char>::empty(),
    }
}

/// The block of one symbol in `gpui_symbol`'s reply.
pub open spec fn symbol_block(s: ApiSymbol) -> Seq<char> {
    "## "@ + s.name@ + " ("@ + kind_debug(s.kind) + owner_on(s.owner) + ")\n`"@ + s.signature@ + "`\n"@
        + s.file@ + ":"@ + decimal(s.line as nat) + (if s.generated {
        " [macro-generated]"@
    } else {
        Seq::<char>::empty()
    }) + "\n"@ + s.doc@ + "\n\n"@
}

/// The reply of `gpui_symbol`: the best 8 matches, or an error.
pub open spec fn symbol_reply_text(syms: Seq<ApiSymbol>, name: Seq<char>, kind: Option<Seq<char>>) -> Result<
    Seq<char>,
    Seq<char>,
> {
    let hits = lookup_hits(syms, name, kind, 8);
    if hits.len() == 0 {
        Err(
            "No symbol "@ + debug_str(name)
                + ". Call sync if the oracle is empty (gpui_status), or gpui_search."@,
        )
    } else {
        Ok(concat(hits.map_values(|h: SymbolHit| symbol_block(syms[h.idx as int]))))
    }
}

/// Appends the text of an optional owner, prefixed by `sep`.
fn push_owner(out: &mut Vec<char>, sep: &str, o: &Option<String>)
    ensures
        final(out)@ == old(out)@ + match o {
            Some(s) => sep@ + s@,
            None => Seq::<char>::empty(),
        },
{
    match o {
        Some(s) => {
            push_str_chars(out, sep);
            push_str_chars(out, s.as_str());
        },
        None => {
            assert(out@ =~= out@ + Seq::<char>::empty());
        },
    }
}

/// The block of one symbol (see `symbol_block`).
fn symbol_block_exec(s: &ApiSymbol) -> (r: String)
    ensures
        r@ == symbol_block(*s),
{
    let mut t = chars_of("## ");
    push_str_chars(&mut t, s.name.as_str());
    push_str_chars(&mut t, " (");
    push_str_chars(&mut t, s.kind.name());
    push_owner(&mut t, " on ", &s.owner);
    push_str_chars(&mut t, ")\n`");
    push_str_chars(&mut t, s.signature.as_str());
    push_str_chars(&mut t, "`\n");
    push_str_chars(&mut t, s.file.as_str());
    push_str_chars(&mut t, ":");
    push_chars(&mut t, &decimal_chars(s.line as u64));
    if s.generated {
        push_str_chars(&mut t, " [macro-generated]");
    } else {
        assert(t@ =~= t@ + Seq::<char>::empty());
    }
    push_str_chars(&mut t, "\n");
    push_str_chars(&mut t, s.doc.as_str());
    push_str_chars(&mut t, "\n\n");
    string_of(&t)
}

/// Runs `gpui_symbol` (see `symbol_reply_text`).
pub fn symbol_reply(api: &ApiIndex, name: &str, kind: Option<&str>) -> (r: Result<String, String>)
    ensures
        text_result(r) == symbol_reply_text(api.symbols@, name@, opt_str_view(kind)),
{
    let hits = lookup(api, name, kind, 8);
    let ghost hs = lookup_hits(api.symbols@, name@, opt_str_view(kind), 8);
    if hits.len() == 0 {
        let mut msg = chars_of("No symbol ");
        push_str_chars(&mut msg, quoted(name).as_str());
        push_str_chars(&mut msg, ". Call sync if the oracle is empty (gpui_status), or gpui_search.");
        return Err(string_of(&msg));
    }
    let ghost blocks = hs.map_values(|h: SymbolHit| symbol_block(api.symbols@[h.idx as int]));
    let mut parts: Vec<String> = Vec::new();
    let mut k: usize = 0;
    while k < hits.len()
        invariant
            k <= hits@.len(),
            hits@.len() == hs.len(),
            hs == lookup_hits(api.symbols@, name@, opt_str_view(kind), 8),
            blocks == hs.map_values(|h: SymbolHit| symbol_block(api.symbols@[h.idx as int])),
            forall|j: int| 0 <= j < hits@.len() ==> {
                let h = #[trigger] hs[j];
                h.idx < api.symbols@.len() && *hits@[j] == api.symbols@[h.idx as int]
            },
            string_views(parts@) == blocks.take(k as int),
        decreases hits@.len() - k,
    {
        let b = symbol_block_exec(hits[k]);
        let ghost before = parts@;
        parts.push(b);
        proof {
            let _ = hs[k as int];
            assert(b@ == blocks[k as int]);
            assert(string_views(parts@) =~= string_views(before).push(b@));
            assert(blocks.take(k + 1) =~= blocks.take(k as int).push(blocks[k as int]));
        }
        k += 1;
    }
    assert(blocks.take(hits@.len() as int) =~= blocks);
    proof {
        reveal_strlit("");
        assert(""@ =~= Seq::<char>::empty());
    }
    Ok(join_strings(&parts, ""))
}

/// The line of one symbol in `gpui_search`'s reply.
pub open spec fn search_line(s: ApiSymbol) -> Seq<char> {
    s.name@ + " ("@ + kind_debug(s.kind) + match s.owner {
        Some(o) => " "@ + o@,
        None => Seq::<char>::empty(),
    } + ") — "@ + s.signature@
}

/// The reply of `gpui_search`: a line per match, or an error; the limit
/// defaults to 10 and is held between 1 and 40.
pub open spec fn gpui_search_text(syms: Seq<ApiSymbol>, query: Seq<char>, limit: Option<u32>) -> Result<
    Seq<char>,
    Seq<char>,
> {
    let hits = lookup_hits(syms, query, None, limit_spec(limit, 10, 1, 40));
    if hits.len() == 0 {
        Err("No symbols for "@ + debug_str(query))
    } else {
        Ok(join_seqs(hits.map_values(|h: SymbolHit| search_line(syms[h.idx as int])), "\n"@))
    }
}

/// Runs `gpui_search` (see `gpui_search_text`).
pub fn gpui_search_reply(api: &ApiIndex, query: &str, limit: Option<u32>) -> (r: Result<String, String>)
    ensures
        text_result(r) == gpui_search_text(api.symbols@, query@, limit),
{
    let lim = clamp_limit(limit, 10, 1, 40);
    let hits = lookup(api, query, None, lim);
    let ghost hs = lookup_hits(api.symbols@, query@, None, lim as nat);
    if hits.len() == 0 {
        let mut msg = chars_of("No symbols for ");
        push_str_chars(&mut msg, quoted(query).as_str());
        return Err(string_of(&msg));
    }
    let ghost ls = hs.map_values(|h: SymbolHit| search_line(api.symbols@[h.idx as int]));
    let mut parts: Vec<String> = Vec::new();
    let mut k: usize = 0;
    while k < hits.len()
        invariant
            k <= hits@.len(),
            hits@.len() == hs.len(),
            hs == lookup_hits(api.symbols@, query@, None, lim as nat),
            ls == hs.map_values(|h: SymbolHit| search_line(api.symbols@[h.idx as int])),
            forall|j: int| 0 <= j < hits@.len() ==> {
                let h = #[trigger] hs[j];
                h.idx < api.symbols@.len() && *hits@[j] == api.symbols@[h.idx as int]
            },
            string_views(parts@) == ls.take(k as int),
        decreases hits@.len() - k,
    {
        let s = hits[k];
        let mut t = chars_of(s.name.as_str());
        push_str_chars(&mut t, " (");
        push_str_chars(&mut t, s.kind.name());
        push_owner(&mut t, " ", &s.owner);
        push_str_chars(&mut t, ") — ");
        push_str_chars(&mut t, s.signature.as_str());
        let ts = string_of(&t);
        let ghost before = parts@;
        parts.push(ts);
        proof {
            let _ = hs[k as int];
            assert(ts@ == ls[k as int]);
            assert(string_views(parts@) =~= string_views(before).push(ts@));
            assert(ls.take(k + 1) =~= ls.take(k as int).push(ls[k as int]));
        }
        k += 1;
    }
    assert(ls.take(hits@.len() as int) =~= ls);
    Ok(join_strings(&parts, "\n"))
}

/// A symbol ordered by name.
#[derive(Clone, Debug)]
pub struct NameKey {
    pub name: String,
    pub idx: usize,
}

impl Ranked for NameKey {
    open spec fn ranks_le(&self, other: &Self) -> bool {
        lex_le(self.name@, other.name@)
    }

    fn le(&self, other: &Self) -> (r: bool) {
        lex_le_exec(&chars_of(self.name.as_str()), &chars_of(other.name.as_str()))
    }
}

/// A method of `Styled` that passes the lowercase filter.
pub open spec fn styled_row(s: ApiSymbol, f: Seq<char>) -> bool {
    s.owner matches Some(o) && o@ == "Styled"@ && (f.len() == 0 || has_infix(lowercase(s.name@), f))
}

/// The `Styled` methods that pass the filter, as keys in index order.
pub open spec fn styled_keys(syms: Seq<ApiSymbol>, f: Seq<char>) -> Seq<NameKey>
    decreases syms.len(),
{
    if syms.len() == 0 {
        seq![]
    } else {
        let p = styled_keys(syms.drop_last(), f);
        if styled_row(syms.last(), f) {
            p.push(NameKey { name: syms.last().name, idx: (syms.len() - 1) as usize })
        } else {
            p
        }
    }
}

/// The line of a `Styled` method: name, signature, doc.
pub open spec fn styled_line(s: ApiSymbol) -> Seq<char> {
    s.name@ + " — "@ + s.signature@ + " — "@ + s.doc@
}

/// The reply of `gpui_styled_methods`: the `Styled` methods whose lowercase
/// name contains the lowercase filter, by name; an error when there is none.
pub open spec fn styled_text(syms: Seq<ApiSymbol>, filter: Option<Seq<char>>) -> Result<Seq<char>, Seq<char>> {
    let f = lowercase(
        match filter {
            Some(x) => x,
            None => Seq::<char>::empty(),
        },
    );
    let rows = sorted(styled_keys(syms, f));
    if rows.len() == 0 {
        Err("No Styled methods (rebuild oracle / sync)."@)
    } else {
        Ok(join_seqs(rows.map_values(|k: NameKey| styled_line(syms[k.idx as int])), "\n"@))
    }
}

proof fn lemma_styled_keys_idx(syms: Seq<ApiSymbol>, f: Seq<char>, k: int)
    requires
        0 <= k < styled_keys(syms, f).len(),
    ensures
        styled_keys(syms, f)[k].idx < syms.len(),
    decreases syms.len(),
{
    if syms.len() > 0 {
        if k < styled_keys(syms.drop_last(), f).len() {
            lemma_styled_keys_idx(syms.drop_last(), f, k);
        }
    }
}

/// Runs `gpui_styled_methods` (see `styled_text`).
pub fn styled_reply(api: &ApiIndex, filter: Option<&str>) -> (r: Result<String, String>)
    ensures
        text_result(r) == styled_text(api.symbols@, opt_str_view(filter)),
{
    let raw: Vec<char> = match filter {
        Some(x) => chars_of(x),
        None => Vec::new(),
    };
    let f = lower_chars(&raw);
    proof {
        match filter {
            Some(x) => {},
            None => {
                assert(raw@ =~= Seq::<char>::empty());
            },
        }
    }
    let mut keys: Vec<NameKey> = Vec::new();
    let mut i: usize = 0;
    while i < api.symbols.len()
        invariant
            i <= api.symbols@.len(),
            keys@ == styled_keys(api.symbols@.take(i as int), f@),
        decreases api.symbols@.len() - i,
    {
        let s = &api.symbols[i];
        proof {
            assert(api.symbols@.take(i + 1).drop_last() =~= api.symbols@.take(i as int));
            assert(api.symbols@.take(i + 1).last() == *s);
        }
        let is_styled = match &s.owner {
            Some(o) => crate::text::chars_are(&chars_of(o.as_str()), "Styled"),
            None => false,
        };
        if is_styled && (f.len() == 0 || crate::text::contains_chars(&lower_chars(&chars_of(s.name.as_str())), &f)) {
            keys.push(NameKey { name: s.name.clone(), idx: i });
        }
        i += 1;
    }
    assert(api.symbols@.take(api.symbols@.len() as int) =~= api.symbols@);
    proof {
        assert forall|k: int| 0 <= k < keys@.len() implies (#[trigger] keys@[k]).idx < api.symbols@.len() by {
            lemma_styled_keys_idx(api.symbols@, f@, k);
        }
        crate::sort::lemma_sorted_all(keys@, |k: NameKey| k.idx < api.symbols@.len());
    }
    let rows = sort_ranked(keys);
    if rows.len() == 0 {
        return Err("No Styled methods (rebuild oracle / sync).".to_string());
    }
    let ghost ls = rows@.map_values(|k: NameKey| styled_line(api.symbols@[k.idx as int]));
    let mut parts: Vec<String> = Vec::new();
    let mut k: usize = 0;
    while k < rows.len()
        invariant
            k <= rows@.len(),
            ls == rows@.map_values(|k: NameKey| styled_line(api.symbols@[k.idx as int])),
            forall|j: int| 0 <= j < rows@.len() ==> (#[trigger] rows@[j]).idx < api.symbols@.len(),
            string_views(parts@) == ls.take(k as int),
        decreases rows@.len() - k,
    {
        let s = &api.symbols[rows[k].idx];
        let mut t = chars_of(s.name.as_str());
        push_str_chars(&mut t, " — ");
        push_str_chars(&mut t, s.signature.as_str());
        push_str_chars(&mut t, " — ");
        push_str_chars(&mut t, s.doc.as_str());
        let ts = string_of(&t);
        let ghost before = parts@;
        parts.push(ts);
        proof {
            assert(ts@ == ls[k as int]);
            assert(string_views(parts@) =~= string_views(before).push(ts@));
            assert(ls.take(k + 1) =~= ls.take(k as int).push(ls[k as int]));
        }
        k += 1;
    }
    assert(ls.take(rows@.len() as int) =~= ls);
    Ok(join_strings(&parts, "\n"))
}

// ---------------------------------------------------------------------------
// Example index tools.
// ---------------------------------------------------------------------------
/// The first `n` strings of `v`, at most.
fn first_strings(v: &Vec<String>, n: usize) -> (r: Vec<String>)
    ensures
        string_views(r@) == crate::api_index::take_at_most(string_views(v@), n as nat),
{
    let mut r: Vec<String> = Vec::new();
    let mut i: usize = 0;
    while i < v.len() && i < n
        invariant
            i <= v@.len(),
            i <= n,
            string_views(r@) == string_views(v@).take(i as int),
        decreases v@.len() - i,
    {
        let ghost before = r@;
        r.push(v[i].clone());
        proof {
            assert(string_views(r@) =~= string_views(before).push(v@[i as int]@));
            assert(string_views(v@).take(i + 1) =~= string_views(v@).take(i as int).push(v@[i as int]@));
        }
        i += 1;
    }
    proof {
        if n as nat >= string_views(v@).len() {
            assert(string_views(v@).take(i as int) =~= string_views(v@));
        }
    }
    r
}

/// The text of one example entry: path, whether it runs, and up to 12 types
/// and 12 methods.
pub open spec fn entry_text(e: ExampleEntry) -> Seq<char> {
    e.path@ + " ("@ + (if e.has_main {
        "runnable"@
    } else {
        "lib"@
    }) + ")\n  types: "@ + join_seqs(crate::api_index::take_at_most(string_views(e.types_used@), 12), ", "@)
        + "\n  methods: "@ + join_seqs(crate::api_index::take_at_most(string_views(e.methods_used@), 12), ", "@)
}

/// The reply of `gpui_examples`: the best examples for the symbols, or an
/// error; the limit defaults to 3 and is held between 1 and 12.
pub open spec fn gpui_examples_text(es: Seq<ExampleEntry>, syms: Seq<String>, limit: Option<u32>) -> Result<
    Seq<char>,
    Seq<char>,
> {
    let hits = example_hits(es, syms, limit_spec(limit, 3, 1, 12));
    if hits.len() == 0 {
        Err("No examples for "@ + debug_str_list(string_views(syms)) + ". Try gpui_list_examples or sync."@)
    } else {
        Ok(join_seqs(hits.map_values(|h: ExampleHit| entry_text(es[h.idx as int])), "\n\n"@))
    }
}

/// The text of one example entry (see `entry_text`).
fn entry_text_exec(e: &ExampleEntry) -> (r: String)
    ensures
        r@ == entry_text(*e),
{
    let mut t = chars_of(e.path.as_str());
    push_str_chars(&mut t, " (");
    if e.has_main {
        push_str_chars(&mut t, "runnable");
    } else {
        push_str_chars(&mut t, "lib");
    }
    push_str_chars(&mut t, ")\n  types: ");
    push_str_chars(&mut t, join_strings(&first_strings(&e.types_used, 12), ", ").as_str());
    push_str_chars(&mut t, "\n  methods: ");
    push_str_chars(&mut t, join_strings(&first_strings(&e.methods_used, 12), ", ").as_str());
    string_of(&t)
}

/// Runs `gpui_examples` (see `gpui_examples_text`).
pub fn gpui_examples_reply(idx: &ExampleIndex, symbols: &Vec<String>, limit: Option<u32>) -> (r: Result<
    String,
    String,
>)
    requires
        symbols@.len() * 130 + 200 <= i32::MAX,
    ensures
        text_result(r) == gpui_examples_text(idx.entries@, symbols@, limit),
{
    let lim = clamp_limit(limit, 3, 1, 12);
    let hits = find_examples_multi(idx, symbols, lim);
    let ghost hs = example_hits(idx.entries@, symbols@, lim as nat);
    if hits.len() == 0 {
        let mut msg = chars_of("No examples for ");
        push_str_chars(&mut msg, quoted_list(symbols).as_str());
        push_str_chars(&mut msg, ". Try gpui_list_examples or sync.");
        return Err(string_of(&msg));
    }
    let ghost ts = hs.map_values(|h: ExampleHit| entry_text(idx.entries@[h.idx as int]));
    let mut parts: Vec<String> = Vec::new();
    let mut k: usize = 0;
    while k < hits.len()
        invariant
            k <= hits@.len(),
            hits@.len() == hs.len(),
            hs == example_hits(idx.entries@, symbols@, lim as nat),
            ts == hs.map_values(|h: ExampleHit| entry_text(idx.entries@[h.idx as int])),
            forall|j: int| 0 <= j < hits@.len() ==> {
                let h = #[trigger] hs[j];
                h.idx < idx.entries@.len() && *hits@[j] == idx.entries@[h.idx as int]
            },
            string_views(parts@) == ts.take(k as int),
        decreases hits@.len() - k,
    {
        let t = entry_text_exec(hits[k]);
        let ghost before = parts@;
        parts.push(t);
        proof {
            let _ = hs[k as int];
            assert(t@ == ts[k as int]);
            assert(string_views(parts@) =~= string_views(before).push(t@));
            assert(ts.take(k + 1) =~= ts.take(k as int).push(ts[k as int]));
        }
        k += 1;
    }
    assert(ts.take(hits@.len() as int) =~= ts);
    Ok(join_strings(&parts, "\n\n"))
}

/// The reply of `gpui_example_file`: the indexed document of the example, or
/// what the index knows of it, or an error.
pub open spec fn example_file_text(es: Seq<ExampleEntry>, docs: Seq<Doc>, name: Seq<char>) -> Result<
    Seq<char>,
    Seq<char>,
> {
    match first_where(es, file_is(name)) {
        None => Err("No example file "@ + debug_str(name)),
        Some(i) => match get_index(docs, es[i].path@) {
            Some(j) => Ok("# "@ + docs[j].id@ + "\n\n"@ + clip_text(docs[j].body@, BODY_LIMIT as nat)),
            None => Ok(
                es[i].path@ + "\n(types: "@ + join_seqs(string_views(es[i].types_used@), ", "@)
                    + ")\nCall get with id "@ + es[i].path@ + " after sync if body is missing."@,
            ),
        },
    }
}

/// Runs `gpui_example_file` (see `example_file_text`).
pub fn example_file_reply(idx: &ExampleIndex, corpus: &Corpus, name: &str) -> (r: Result<String, String>)
    ensures
        text_result(r) == example_file_text(idx.entries@, corpus.docs@, name@),
{
    let e = match get_file(idx, name) {
        Some(e) => e,
        None => {
            let mut msg = chars_of("No example file ");
            push_str_chars(&mut msg, quoted(name).as_str());
            return Err(string_of(&msg));
        },
    };
    match corpus.get(e.path.as_str()) {
        Some(d) => {
            let mut t = chars_of("# ");
            push_str_chars(&mut t, d.id.as_str());
            push_str_chars(&mut t, "\n\n");
            push_str_chars(&mut t, clip(d.body.as_str(), BODY_LIMIT).as_str());
            Ok(string_of(&t))
        },
        None => {
            let mut t = chars_of(e.path.as_str());
            push_str_chars(&mut t, "\n(types: ");
            push_str_chars(&mut t, join_strings(&e.types_used, ", ").as_str());
            push_str_chars(&mut t, ")\nCall get with id ");
            push_str_chars(&mut t, e.path.as_str());
            push_str_chars(&mut t, " after sync if body is missing.");
            Ok(string_of(&t))
        },
    }
}

/// The line of an entry in `gpui_list_examples`: path and title.
pub open spec fn entry_line(e: ExampleEntry) -> Seq<char> {
    e.path@ + "  —  "@ + e.title@
}

/// The reply of `gpui_list_examples`: a line per entry, or an error.
pub open spec fn list_entries_text(es: Seq<ExampleEntry>) -> Result<Seq<char>, Seq<char>> {
    if es.len() == 0 {
        Err("Example index empty. Call sync."@)
    } else {
        Ok(join_seqs(es.map_values(|e: ExampleEntry| entry_line(e)), "\n"@))
    }
}

/// Runs `gpui_list_examples` (see `list_entries_text`).
pub fn list_entries_reply(idx: &ExampleIndex) -> (r: Result<String, String>)
    ensures
        text_result(r) == list_entries_text(idx.entries@),
{
    if idx.entries.len() == 0 {
        return Err("Example index empty. Call sync.".to_string());
    }
    let ghost ls = idx.entries@.map_values(|e: ExampleEntry| entry_line(e));
    let mut parts: Vec<String> = Vec::new();
    let mut k: usize = 0;
    while k < idx.entries.len()
        invariant
            k <= idx.entries@.len(),
            ls == idx.entries@.map_values(|e: ExampleEntry| entry_line(e)),
            string_views(parts@) == ls.take(k as int),
        decreases idx.entries@.len() - k,
    {
        let e = &idx.entries[k];
        let mut t = chars_of(e.path.as_str());
        push_str_chars(&mut t, "  —  ");
        push_str_chars(&mut t, e.title.as_str());
        let ts = string_of(&t);
        let ghost before = parts@;
        parts.push(ts);
        proof {
            assert(ts@ == ls[k as int]);
            assert(string_views(parts@) =~= string_views(before).push(ts@));
            assert(ls.take(k + 1) =~= ls.take(k as int).push(ls[k as int]));
        }
        k += 1;
    }
    assert(ls.take(idx.entries@.len() as int) =~= ls);
    Ok(join_strings(&parts, "\n"))
}

// ---------------------------------------------------------------------------
// Recipes, scaffold, error decoding, status.
// ---------------------------------------------------------------------------
/// The text of one recipe: id, title, and code.
pub open spec fn recipe_text(r: Recipe) -> Seq<char> {
    "# "@ + r.id@ + " — "@ + r.title@ + "\n\n"@ + r.code@
}

/// The line of a recipe in a list.
pub open spec fn recipe_line(r: Recipe) -> Seq<char> {
    r.id@ + " — "@ + r.title@
}

/// The reply of `gpui_recipe`: with a non-empty id, that recipe or an error;
/// else the recipes the query finds (all for no query): one is shown whole,
/// several are listed, none is an error that lists the ids.
pub open spec fn recipe_reply_text(rs: Seq<Recipe>, id: Option<Seq<char>>, query: Option<Seq<char>>) -> Result<
    Seq<char>,
    Seq<char>,
> {
    if id is Some && id->0.len() > 0 {
        match first_where(rs, |x: Recipe| x.id@ == id->0) {
            Some(i) => Ok(recipe_text(rs[i])),
            None => Err("Unknown recipe "@ + debug_str(id->0)),
        }
    } else {
        let q = match query {
            Some(q) => q,
            None => Seq::<char>::empty(),
        };
        let order = if q.len() == 0 {
            Seq::new(rs.len(), |i: int| i)
        } else {
            recipe_search_order(rs, q)
        };
        if order.len() == 1 {
            Ok(recipe_text(rs[order[0]]))
        } else if order.len() == 0 {
            Err("No recipes matched. Try "@ + join_seqs(rs.map_values(|r: Recipe| r.id@), ", "@) + "."@)
        } else {
            Ok(join_seqs(order.map_values(|i: int| recipe_line(rs[i])), "\n"@))
        }
    }
}

/// The text of one recipe (see `recipe_text`).
fn recipe_text_exec(r: &Recipe) -> (t: String)
    ensures
        t@ == recipe_text(*r),
{
    let mut t = chars_of("# ");
    push_str_chars(&mut t, r.id.as_str());
    push_str_chars(&mut t, " — ");
    push_str_chars(&mut t, r.title.as_str());
    push_str_chars(&mut t, "\n\n");
    push_str_chars(&mut t, r.code.as_str());
    string_of(&t)
}

/// Runs `gpui_recipe` (see `recipe_reply_text`).
pub fn recipe_reply(curated: &Curated, id: Option<&str>, query: Option<&str>) -> (r: Result<String, String>)
    ensures
        text_result(r) == recipe_reply_text(curated.recipes_view(), opt_str_view(id), opt_str_view(query)),
{
    let ghost rs = curated.recipes_view();
    if let Some(i) = id {
        if !i.is_empty() {
            return match curated.get(i) {
                Some(rc) => Ok(recipe_text_exec(rc)),
                None => {
                    let mut msg = chars_of("Unknown recipe ");
                    push_str_chars(&mut msg, quoted(i).as_str());
                    Err(string_of(&msg))
                },
            };
        }
    }
    let q: &str = match query {
        Some(q) => q,
        None => "",
    };
    proof {
        if query is None {
            reveal_strlit("");
            assert(q@ =~= Seq::<char>::empty());
        }
    }
    let all = curated.all();
    let hits: Vec<&Recipe> = if q.is_empty() {
        let mut h: Vec<&Recipe> = Vec::new();
        let mut i: usize = 0;
        while i < all.len()
            invariant
                i <= all@.len(),
                all@ == rs,
                h@.len() == i,
                forall|j: int| 0 <= j < i ==> *h@[j] == rs[j],
            decreases all@.len() - i,
        {
            h.push(&all[i]);
            i += 1;
        }
        h
    } else {
        curated.search(q)
    };
    let ghost order = if q@.len() == 0 {
        Seq::new(rs.len(), |i: int| i)
    } else {
        recipe_search_order(rs, q@)
    };
    assert(hits@.len() == order.len());
    assert(forall|k: int| 0 <= k < hits@.len() ==> 0 <= #[trigger] order[k] < rs.len() && *hits@[k] == rs[order[k]]);
    if hits.len() == 1 {
        assert(*hits@[0] == rs[order[0]]);
        return Ok(recipe_text_exec(hits[0]));
    }
    if hits.len() == 0 {
        let mut ids: Vec<String> = Vec::new();
        let mut i: usize = 0;
        while i < all.len()
            invariant
                i <= all@.len(),
                all@ == rs,
                string_views(ids@) == rs.map_values(|r: Recipe| r.id@).take(i as int),
            decreases all@.len() - i,
        {
            let ghost before = ids@;
            ids.push(all[i].id.clone());
            proof {
                assert(string_views(ids@) =~= string_views(before).push(rs[i as int].id@));
                assert(rs.map_values(|r: Recipe| r.id@).take(i + 1) =~= rs.map_values(|r: Recipe| r.id@).take(
                    i as int,
                ).push(rs[i as int].id@));
            }
            i += 1;
        }
        assert(rs.map_values(|r: Recipe| r.id@).take(all@.len() as int) =~= rs.map_values(|r: Recipe| r.id@));
        let mut msg = chars_of("No recipes matched. Try ");
        push_str_chars(&mut msg, join_strings(&ids, ", ").as_str());
        push_str_chars(&mut msg, ".");
        return Err(string_of(&msg));
    }
    let ghost ls = order.map_values(|i: int| recipe_line(rs[i]));
    let mut parts: Vec<String> = Vec::new();
    let mut k: usize = 0;
    while k < hits.len()
        invariant
            k <= hits@.len(),
            hits@.len() == order.len(),
            forall|j: int| 0 <= j < hits@.len() ==> 0 <= #[trigger] order[j] < rs.len() && *hits@[j] == rs[order[j]],
            ls == order.map_values(|i: int| recipe_line(rs[i])),
            string_views(parts@) == ls.take(k as int),
        decreases hits@.len() - k,
    {
        let rc = hits[k];
        let mut t = chars_of(rc.id.as_str());
        push_str_chars(&mut t, " — ");
        push_str_chars(&mut t, rc.title.as_str());
        let ts = string_of(&t);
        let ghost before = parts@;
        parts.push(ts);
        proof {
            let _ = order[k as int];
            assert(ts@ == ls[k as int]);
            assert(string_views(parts@) =~= string_views(before).push(ts@));
            assert(ls.take(k + 1) =~= ls.take(k as int).push(ls[k as int]));
        }
        k += 1;
    }
    assert(ls.take(hits@.len() as int) =~= ls);
    Ok(join_strings(&parts, "\n"))
}

/// The scaffold reply: `Cargo.toml`, `main.rs`, and a note on platforms.
pub open spec fn scaffold_text(cargo: Seq<char>, main: Seq<char>) -> Seq<char> {
    "## Cargo.toml\n\n"@ + cargo + "\n\n## src/main.rs\n\n"@ + main
        + "\n\nLinux: gpui_platform features font-kit, wayland, x11. Do not use Application::new()."@
}

/// The dependency mode a `dep_mode` parameter asks for: `path`, else git.
pub open spec fn dep_mode_for(p: Option<Seq<char>>) -> DepMode {
    if p == Some("path"@) {
        DepMode::Path
    } else {
        DepMode::Git
    }
}

/// Runs `gpui_scaffold`: the `Cargo.toml` for the dependency mode and the
/// scaffold's `main.rs`.
pub fn scaffold_reply(curated: &Curated, dep_mode: Option<&str>) -> (r: String)
    ensures
        dep_mode_for(opt_str_view(dep_mode)) == DepMode::Git ==> r@ == scaffold_text(
            crate::text::replace_all(curated.cargo_git_view(), "ZED_PINNED_REV"@, crate::sources::ZED_PINNED_REV@),
            curated.main_view(),
        ),
        dep_mode_for(opt_str_view(dep_mode)) == DepMode::Path ==> r@ == scaffold_text(
            curated.cargo_path_view(),
            curated.main_view(),
        ),
{
    let mode = match dep_mode {
        Some(m) => if crate::text::str_is(m, "path") {
            DepMode::Path
        } else {
            DepMode::Git
        },
        None => DepMode::Git,
    };
    let mut t = chars_of("## Cargo.toml\n\n");
    push_str_chars(&mut t, curated.cargo_toml(mode).as_str());
    push_str_chars(&mut t, "\n\n## src/main.rs\n\n");
    push_str_chars(&mut t, curated.scaffold_main());
    push_str_chars(&mut t, "\n\nLinux: gpui_platform features font-kit, wayland, x11. Do not use Application::new().");
    string_of(&t)
}

/// The block of one diagnosis in `gpui_decode_error`'s reply.
pub open spec fn diag_block(d: DiagView) -> Seq<char> {
    "## "@ + d.0 + "\n"@ + d.1 + "\nFix: "@ + d.2 + "\nsymbols: "@ + join_seqs(d.3, ", "@) + match d.4 {
        Some(r) => "\nrecipe: "@ + r,
        None => Seq::<char>::empty(),
    } + "\n\n"@
}

/// The reply of `gpui_decode_error`: the diagnoses, or an error.
pub open spec fn decode_reply_text(syms: Seq<ApiSymbol>, error: Seq<char>) -> Result<Seq<char>, Seq<char>> {
    let ds = decode_result(error, builtin_table(), syms);
    if ds.len() == 0 {
        Err("No diagnosis. Try gpui_symbol on the type named in the error."@)
    } else {
        Ok(concat(ds.map_values(|d: DiagView| diag_block(d))))
    }
}

/// Runs `gpui_decode_error` (see `decode_reply_text`).
pub fn decode_reply(api: &ApiIndex, error: &str) -> (r: Result<String, String>)
    ensures
        text_result(r) == decode_reply_text(api.symbols@, error@),
{
    let ds = decode(error, api);
    if ds.len() == 0 {
        return Err("No diagnosis. Try gpui_symbol on the type named in the error.".to_string());
    }
    let ghost dv = diag_views(ds@);
    let ghost bs = dv.map_values(|d: DiagView| diag_block(d));
    let mut parts: Vec<String> = Vec::new();
    let mut k: usize = 0;
    while k < ds.len()
        invariant
            k <= ds@.len(),
            dv == diag_views(ds@),
            bs == dv.map_values(|d: DiagView| diag_block(d)),
            string_views(parts@) == bs.take(k as int),
        decreases ds@.len() - k,
    {
        let d = &ds[k];
        let mut t = chars_of("## ");
        push_str_chars(&mut t, d.pattern_id.as_str());
        push_str_chars(&mut t, "\n");
        push_str_chars(&mut t, d.explanation.as_str());
        push_str_chars(&mut t, "\nFix: ");
        push_str_chars(&mut t, d.fix.as_str());
        push_str_chars(&mut t, "\nsymbols: ");
        push_str_chars(&mut t, join_strings(&d.related_symbols, ", ").as_str());
        push_owner(&mut t, "\nrecipe: ", &d.related_recipe);
        push_str_chars(&mut t, "\n\n");
        let ts = string_of(&t);
        let ghost before = parts@;
        parts.push(ts);
        proof {
            assert(ts@ == bs[k as int]);
            assert(string_views(parts@) =~= string_views(before).push(ts@));
            assert(bs.take(k + 1) =~= bs.take(k as int).push(bs[k as int]));
        }
        k += 1;
    }
    assert(bs.take(ds@.len() as int) =~= bs);
    proof {
        reveal_strlit("");
        assert(""@ =~= Seq::<char>::empty());
    }
    Ok(join_strings(&parts, ""))
}

/// The pin lines of the status: the pin and whether the index was built at
/// it.
pub open spec fn pin_text(commit: Seq<char>, pin: Option<Seq<char>>) -> Seq<char> {
    match pin {
        None => "pinned zed rev: HEAD (unpinned; GPUI_MCP_ZED_REV=HEAD)"@,
        Some(p) => "pinned zed rev: "@ + p + "\n"@ + if commit.len() == 0 {
            "oracle empty — call sync"@
        } else if same_rev(commit, p) {
            "pin match: yes"@
        } else {
            "pin match: NO — call sync"@
        },
    }
}

/// The part of the status after the pin lines.
pub open spec fn status_tail(api: ApiIndex, n_examples: nat, n_docs: nat, missing: Seq<String>) -> Seq<char> {
    "\nzed commit: "@ + (if api.zed_commit@.len() == 0 {
        "(none)"@
    } else {
        api.zed_commit@
    }) + "\ngpui crate version: "@ + api.gpui_version@ + "\napi symbols: "@ + decimal(api.symbols@.len())
        + "\nexamples indexed: "@ + decimal(n_examples) + "\nmarkdown docs: "@ + decimal(n_docs)
        + "\nmissing clones: "@ + (if missing.len() == 0 {
        "none"@
    } else {
        join_seqs(string_views(missing), ", "@)
    }) + "\nschema: "@ + decimal(api.schema_version as nat) + "\nbuilt_at: "@ + api.built_at@
        + "\nCall sync if symbols are 0 or pin match is NO."@
}

/// The reply of `gpui_status`: cache, pin, index commit and version, counts,
/// missing clones, schema and build time.
pub open spec fn status_text(
    api: ApiIndex,
    n_examples: nat,
    n_docs: nat,
    missing: Seq<String>,
    cache: Seq<char>,
    pin: Option<Seq<char>>,
) -> Seq<char> {
    "cache: "@ + cache + "\n"@ + pin_text(api.zed_commit@, pin) + status_tail(api, n_examples, n_docs, missing)
}

/// The pin lines (see `pin_text`).
fn pin_text_exec(commit: &str, pin: Option<&str>) -> (r: Vec<char>)
    requires
        commit@.len() > 0 ==> (pin matches Some(p) ==> revs_comparable(commit@, p@)),
    ensures
        r@ == pin_text(commit@, opt_str_view(pin)),
{
    match pin {
        None => chars_of("pinned zed rev: HEAD (unpinned; GPUI_MCP_ZED_REV=HEAD)"),
        Some(p) => {
            let mut t = chars_of("pinned zed rev: ");
            push_str_chars(&mut t, p);
            push_str_chars(&mut t, "\n");
            if commit.is_empty() {
                push_str_chars(&mut t, "oracle empty — call sync");
            } else if same_git_rev(commit, p) {
                push_str_chars(&mut t, "pin match: yes");
            } else {
                push_str_chars(&mut t, "pin match: NO — call sync");
            }
            t
        },
    }
}

/// The part after the pin lines (see `status_tail`).
fn status_tail_exec(api: &ApiIndex, n_examples: usize, n_docs: usize, missing: &Vec<String>) -> (r: Vec<char>)
    ensures
        r@ == status_tail(*api, n_examples as nat, n_docs as nat, missing@),
{
    let mut t = chars_of("\nzed commit: ");
    if api.zed_commit.as_str().is_empty() {
        push_str_chars(&mut t, "(none)");
    } else {
        push_str_chars(&mut t, api.zed_commit.as_str());
    }
    push_str_chars(&mut t, "\ngpui crate version: ");
    push_str_chars(&mut t, api.gpui_version.as_str());
    push_str_chars(&mut t, "\napi symbols: ");
    push_chars(&mut t, &decimal_chars(api.symbols.len() as u64));
    push_str_chars(&mut t, "\nexamples indexed: ");
    push_chars(&mut t, &decimal_chars(n_examples as u64));
    push_str_chars(&mut t, "\nmarkdown docs: ");
    push_chars(&mut t, &decimal_chars(n_docs as u64));
    push_str_chars(&mut t, "\nmissing clones: ");
    if missing.len() == 0 {
        push_str_chars(&mut t, "none");
    } else {
        push_str_chars(&mut t, join_strings(missing, ", ").as_str());
    }
    push_str_chars(&mut t, "\nschema: ");
    push_chars(&mut t, &decimal_chars(api.schema_version as u64));
    push_str_chars(&mut t, "\nbuilt_at: ");
    push_str_chars(&mut t, api.built_at.as_str());
    push_str_chars(&mut t, "\nCall sync if symbols are 0 or pin match is NO.");
    t
}

/// Runs `gpui_status`; `pin` is the Zed pin in force (`None`: unpinned).
pub fn status_reply(api: &ApiIndex, examples: &ExampleIndex, corpus: &Corpus, cache: &str, pin: Option<&str>) -> (r: String)
    requires
        api.zed_commit@.len() > 0 ==> (pin matches Some(p) ==> revs_comparable(api.zed_commit@, p@)),
    ensures
        r@ == status_text(
            *api,
            examples.entries@.len(),
            corpus.docs@.len(),
            corpus.missing@,
            cache@,
            opt_str_view(pin),
        ),
{
    let mut t = chars_of("cache: ");
    push_str_chars(&mut t, cache);
    push_str_chars(&mut t, "\n");
    push_chars(&mut t, &pin_text_exec(api.zed_commit.as_str(), pin));
    push_chars(&mut t, &status_tail_exec(api, examples.entries.len(), corpus.docs.len(), &corpus.missing));
    string_of(&t)
}

/// The reply of `sync`: its log and the number of documents indexed.
pub fn sync_reply(log: &str, n_docs: usize) -> (r: String)
    ensures
        r@ == log@ + "\n\nreindexed "@ + decimal(n_docs as nat) + " documents"@,
{
    let mut t = chars_of(log);
    push_str_chars(&mut t, "\n\nreindexed ");
    push_chars(&mut t, &decimal_chars(n_docs as u64));
    push_str_chars(&mut t, " documents");
    string_of(&t)
}

} // verus!
