//! Bodies shown to the client: clipping long text, and opening one example
//! by name.

use vstd::prelude::*;

use crate::index::{example_keys, Corpus, Doc};
use crate::paths::{file_name_of, path_file_name};
use crate::sort::sorted;
use crate::text::{
    chars_of, cut_at_bytes, cut_to_bytes, cuttable, cuttable_exec, debug_str, eq_ignore_ascii,
    eq_ignore_ascii_case_chars, fit_count, has_infix, has_suffix, contains_chars, join_seqs,
    join_strings, lower_chars, lowercase, prefix_within, push_chars, push_str_chars, quoted,
    string_of, string_views, trim, trim_chars, utf8_len, utf8_len_exec, utf8_len_gt,
};

verus! {

/// Longest body, in bytes, that `get` and the example tools return whole.
pub const BODY_LIMIT: usize = 24_000;

/// What is appended to a clipped body.
pub open spec fn truncation_note() -> Seq<char> {
    "…\n\n[truncated — call get with this id for the full file]"@
}

/// `s` when it fits in `max` bytes; else its longest prefix that fits,
/// followed by the truncation note.
pub open spec fn clip_text(s: Seq<char>, max: nat) -> Seq<char> {
    if utf8_len(s) <= max {
        s
    } else {
        s.take(fit_count(s, max)) + truncation_note()
    }
}

/// Clips `s` to `max` bytes, never inside a character (see `clip_text`).
pub fn clip(s: &str, max: usize) -> (r: String)
    ensures
        r@ == clip_text(s@, max as nat),
{
    let v = chars_of(s);
    if !utf8_len_gt(&v, max) {
        return s.to_string();
    }
    let mut out = prefix_within(&v, max);
    push_str_chars(&mut out, "…\n\n[truncated — call get with this id for the full file]");
    string_of(&out)
}

proof fn lemma_fit_witness(s: Seq<char>, n: nat, k: int)
    requires
        0 <= k <= s.len(),
        utf8_len(s.take(k)) <= n,
    ensures
        exists|j: int| 0 <= j <= s.len() && #[trigger] utf8_len(s.take(j)) <= n && (j == s.len() || utf8_len(s.take(j + 1)) > n),
    decreases s.len() - k,
{
    if k < s.len() && utf8_len(s.take(k + 1)) <= n {
        lemma_fit_witness(s, n, k + 1);
    } else {
        assert(utf8_len(s.take(k)) <= n);
    }
}

/// Clipping keeps text that fits; longer text is cut to its longest prefix
/// of at most `max` bytes, never inside a character, and marked as cut.
pub proof fn law_clip_fits(s: Seq<char>, max: nat)
    ensures
        utf8_len(s) <= max ==> clip_text(s, max) == s,
        utf8_len(s) > max ==> {
            let k = fit_count(s, max);
            &&& 0 <= k < s.len()
            &&& clip_text(s, max) == s.take(k) + truncation_note()
            &&& utf8_len(s.take(k)) <= max
            &&& utf8_len(s.take(k + 1)) > max
        },
{
    if utf8_len(s) > max {
        assert(s.take(0) =~= Seq::<char>::empty());
        assert(vstd::utf8::encode_utf8(Seq::<char>::empty()) =~= Seq::<u8>::empty());
        lemma_fit_witness(s, max, 0);
        assert(s.take(s.len() as int) =~= s);
    }
}

/// The name with a trailing `.rs` removed when, ASCII case aside, it ends
/// with one (the name is trimmed first).
pub open spec fn stem_of(name: Seq<char>) -> Seq<char> {
    let t = trim(name);
    if (".rs"@).is_suffix_of(lowercase(t)) {
        cut_to_bytes(t, (utf8_len(t) - 3) as nat)
    } else {
        t
    }
}

/// Removing `.rs` from the name can be done by cutting its last three bytes.
pub open spec fn stem_cuttable(name: Seq<char>) -> bool {
    let t = trim(name);
    (".rs"@).is_suffix_of(lowercase(t)) ==> utf8_len(t) >= 3 && cuttable(t, (utf8_len(t) - 3) as nat)
}

/// Whether `stem_cuttable` holds of the name.
pub fn stem_cuttable_exec(name: &str) -> (r: bool)
    ensures
        r == stem_cuttable(name@),
{
    let t = trim_chars(&chars_of(name));
    let lower = lower_chars(&t);
    if !has_suffix(&lower, &chars_of(".rs")) {
        return true;
    }
    let n = utf8_len_exec(&t);
    n >= 3 && cuttable_exec(&t, n - 3)
}

/// The example name without surrounding spaces and without `.rs`.
fn example_stem(name: &str) -> (r: String)
    requires
        stem_cuttable(name@),
    ensures
        r@ == stem_of(name@),
{
    let t = trim_chars(&chars_of(name));
    let lower = lower_chars(&t);
    if has_suffix(&lower, &chars_of(".rs")) {
        let n = utf8_len_exec(&t);
        string_of(&cut_at_bytes(&t, n - 3))
    } else {
        string_of(&t)
    }
}

/// The text of one example: id, path, and the body clipped.
pub open spec fn example_text(d: Doc) -> Seq<char> {
    "# "@ + d.id@ + "\n# "@ + d.path@ + "\n\n"@ + clip_text(d.body@, BODY_LIMIT as nat)
}

/// Formats one example (see `example_text`).
fn format_example(d: &Doc) -> (r: String)
    ensures
        r@ == example_text(*d),
{
    let mut out = chars_of("# ");
    push_str_chars(&mut out, d.id.as_str());
    push_str_chars(&mut out, "\n# ");
    push_str_chars(&mut out, d.path.as_str());
    push_str_chars(&mut out, "\n\n");
    push_str_chars(&mut out, clip(d.body.as_str(), BODY_LIMIT).as_str());
    string_of(&out)
}

/// The ids of documents.
pub open spec fn doc_ids(ds: Seq<Doc>) -> Seq<Seq<char>> {
    ds.map_values(|d: Doc| d.id@)
}

/// The answer when several examples match: their ids, one per line.
pub open spec fn ambiguous_text(ds: Seq<Doc>) -> Seq<char> {
    "Multiple examples:\n"@ + join_seqs(doc_ids(ds), "\n"@) + "\nCall get with one id."@
}

/// The documents behind references.
pub open spec fn derefs(v: Seq<&Doc>) -> Seq<Doc> {
    v.map_values(|d: &Doc| *d)
}

/// Lists the ids of the documents (see `ambiguous_text`).
fn ambiguous(docs: &Vec<&Doc>) -> (r: String)
    ensures
        r@ == ambiguous_text(derefs(docs@)),
{
    let mut ids: Vec<String> = Vec::new();
    let mut i: usize = 0;
    while i < docs.len()
        invariant
            i <= docs@.len(),
            string_views(ids@) == doc_ids(derefs(docs@)).take(i as int),
        decreases docs@.len() - i,
    {
        let ghost before = ids@;
        ids.push(docs[i].id.clone());
        proof {
            assert(string_views(ids@) =~= string_views(before).push(docs@[i as int].id@));
            assert(doc_ids(derefs(docs@)).take(i + 1) =~= doc_ids(derefs(docs@)).take(i as int).push(
                docs@[i as int].id@,
            ));
        }
        i += 1;
    }
    assert(doc_ids(derefs(docs@)).take(docs@.len() as int) =~= doc_ids(derefs(docs@)));
    let mut out = chars_of("Multiple examples:\n");
    push_str_chars(&mut out, join_strings(&ids, "\n").as_str());
    push_str_chars(&mut out, "\nCall get with one id.");
    string_of(&out)
}

/// The example documents of the corpus, ordered by id (what
/// `Corpus::examples` returns).
pub open spec fn example_docs(docs: Seq<Doc>) -> Seq<Doc> {
    sorted(example_keys(docs)).map_values(|e: crate::index::ExampleKey| docs[e.idx as int])
}

/// The example's id or title contains the lowercase query.
pub open spec fn example_hit(q: Seq<char>) -> spec_fn(Doc) -> bool {
    |d: Doc| has_infix(lowercase(d.id@), q) || has_infix(lowercase(d.title@), q)
}

/// The example's file is `<stem>.rs`, ASCII case ignored.
pub open spec fn exact_file(stem: Seq<char>) -> spec_fn(Doc) -> bool {
    |d: Doc|
        match file_name_of(d.path@) {
            Some(n) => eq_ignore_ascii(n, stem + ".rs"@),
            None => false,
        }
}

/// What `get_example` answers for a name: the example whose file is the
/// name (with `.rs`), or the only example whose id or title contains it;
/// else an error naming the problem.
pub open spec fn payload_result(docs: Seq<Doc>, name: Seq<char>) -> Result<Seq<char>, Seq<char>> {
    let stem = stem_of(name);
    let matches = example_docs(docs).filter(example_hit(lowercase(stem)));
    let exact = matches.filter(exact_file(stem));
    if stem.len() == 0 {
        Err("Empty example name"@)
    } else if matches.len() == 0 {
        Err("No example matching "@ + debug_str(name))
    } else if exact.len() == 1 {
        Ok(example_text(exact[0]))
    } else if exact.len() == 0 && matches.len() == 1 {
        Ok(example_text(matches[0]))
    } else if exact.len() == 0 {
        Err(ambiguous_text(matches))
    } else {
        Err(ambiguous_text(exact))
    }
}

/// The view of a result of strings.
pub open spec fn text_result(r: Result<String, String>) -> Result<Seq<char>, Seq<char>> {
    match r {
        Ok(s) => Ok(s@),
        Err(e) => Err(e@),
    }
}

/// Opens one example by name (see `payload_result`).
pub fn example_payload(corpus: &Corpus, name: &str) -> (r: Result<String, String>)
    requires
        stem_cuttable(name@),
    ensures
        text_result(r) == payload_result(corpus.docs@, name@),
{
    let stem = example_stem(name);
    if stem.as_str().is_empty() {
        return Err("Empty example name".to_string());
    }
    let sc = chars_of(stem.as_str());
    let q = lower_chars(&sc);
    let mut want = sc.clone();
    push_str_chars(&mut want, ".rs");
    let exs = corpus.examples();
    let ghost ed = example_docs(corpus.docs@);
    let ghost hit = example_hit(lowercase(stem@));
    let ghost ex = exact_file(stem@);
    assert(derefs(exs@) =~= ed);
    let mut matches: Vec<&Doc> = Vec::new();
    let mut exact: Vec<&Doc> = Vec::new();
    let mut i: usize = 0;
    assert(ed.take(0).filter(hit) =~= Seq::<Doc>::empty());
    assert(ed.take(0).filter(hit).filter(ex) =~= Seq::<Doc>::empty());
    while i < exs.len()
        invariant
            i <= exs@.len(),
            derefs(exs@) == ed,
            ed == example_docs(corpus.docs@),
            hit == example_hit(lowercase(stem@)),
            ex == exact_file(stem@),
            q@ == lowercase(stem@),
            want@ == stem@ + ".rs"@,
            derefs(matches@) == ed.take(i as int).filter(hit),
            derefs(exact@) == ed.take(i as int).filter(hit).filter(ex),
        decreases exs@.len() - i,
    {
        let d = exs[i];
        proof {
            assert(ed[i as int] == *d);
            assert(ed.take(i + 1) =~= ed.take(i as int).push(*d));
            ed.take(i as int).lemma_filter_push(*d, hit);
        }
        let is_hit = contains_chars(&lower_chars(&chars_of(d.id.as_str())), &q) || contains_chars(
            &lower_chars(&chars_of(d.title.as_str())),
            &q,
        );
        if is_hit {
            let ghost bm = matches@;
            matches.push(d);
            assert(derefs(matches@) =~= derefs(bm).push(*d));
            let is_exact = match path_file_name(d.path.as_str()) {
                Some(n) => eq_ignore_ascii_case_chars(&chars_of(n.as_str()), &want),
                None => false,
            };
            proof {
                ed.take(i as int).filter(hit).lemma_filter_push(*d, ex);
            }
            if is_exact {
                let ghost be = exact@;
                exact.push(d);
                assert(derefs(exact@) =~= derefs(be).push(*d));
            }
        }
        i += 1;
    }
    assert(ed.take(exs@.len() as int) =~= ed);
    if matches.len() == 0 {
        let mut msg = chars_of("No example matching ");
        push_str_chars(&mut msg, quoted(name).as_str());
        return Err(string_of(&msg));
    }
    if exact.len() == 1 {
        assert(derefs(exact@)[0] == *exact@[0]);
        return Ok(format_example(exact[0]));
    }
    if exact.len() == 0 && matches.len() == 1 {
        assert(derefs(matches@)[0] == *matches@[0]);
        return Ok(format_example(matches[0]));
    }
    if exact.len() == 0 {
        Err(ambiguous(&matches))
    } else {
        Err(ambiguous(&exact))
    }
}

} // verus!
