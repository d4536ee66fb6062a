//! What `sync` decides: where the Zed checkout lives, whether a checkout is
//! already at the pinned revision, which git steps a source needs, and the
//! log it reports. Running git and touching the disk is left to the caller.

use vstd::prelude::*;

use crate::paths::{join_of, path_join};
use crate::text::{
    ascii_lower_seq, chars_of, cut_at_bytes, cut_to_bytes, cuttable, decimal, decimal_chars,
    join_seqs, join_strings, push_chars, push_str_chars, string_of, string_views, to_ascii_lower,
    trim, trim_chars, utf8_len, utf8_len_gt,
};

verus! {

/// Where the sparse Zed clone lives: `<cache>/src/zed-gpui`.
pub fn zed_root(cache: &str) -> (r: String)
    ensures
        r@ == join_of(join_of(cache@, "src"@), "zed-gpui"@),
{
    let src = path_join(cache, "src");
    path_join(src.as_str(), "zed-gpui")
}

/// Where the `gpui` crate lives inside the Zed clone.
pub fn gpui_crate(cache: &str) -> (r: String)
    ensures
        r@ == join_of(join_of(join_of(join_of(cache@, "src"@), "zed-gpui"@), "crates"@), "gpui"@),
{
    let root = zed_root(cache);
    let crates = path_join(root.as_str(), "crates");
    path_join(crates.as_str(), "gpui")
}

/// The revision printed by `git rev-parse HEAD`: its output, trimmed.
pub fn git_rev(head_output: &str) -> (r: String)
    ensures
        r@ == trim(head_output@),
{
    string_of(&trim_chars(&chars_of(head_output)))
}

/// `a` is, ASCII case ignored, a prefix of `b`.
pub open spec fn ascii_prefix(a: Seq<char>, b: Seq<char>) -> bool {
    a.len() <= b.len() && ascii_lower_seq(a) == ascii_lower_seq(b.take(a.len() as int))
}

/// Two revisions name the same commit: the shorter (in characters) is a
/// prefix of the longer, ASCII case ignored, and is at least 7 bytes long.
pub open spec fn same_rev(a: Seq<char>, b: Seq<char>) -> bool {
    if a.len() <= b.len() {
        ascii_prefix(a, b) && utf8_len(a) >= 7
    } else {
        ascii_prefix(b, a) && utf8_len(b) >= 7
    }
}

/// The byte length of the shorter of the two revisions.
pub open spec fn common_bytes(a: Seq<char>, b: Seq<char>) -> nat {
    if utf8_len(a) <= utf8_len(b) {
        utf8_len(a)
    } else {
        utf8_len(b)
    }
}

/// Both revisions can be cut at the byte length of the shorter when that is
/// at least 7 (the comparison slices both there).
pub open spec fn revs_comparable(a: Seq<char>, b: Seq<char>) -> bool {
    common_bytes(a, b) >= 7 ==> cuttable(a, common_bytes(a, b)) && cuttable(b, common_bytes(a, b))
}

/// Whether two revisions name the same commit (see `same_rev`); an
/// abbreviated SHA of at least 7 characters matches the full one.
pub fn same_git_rev(a: &str, b: &str) -> (r: bool)
    requires
        revs_comparable(a@, b@),
    ensures
        r == same_rev(a@, b@),
{
    let va = chars_of(a);
    let vb = chars_of(b);
    let mut i: usize = 0;
    while i < va.len() && i < vb.len()
        invariant
            i <= va@.len(),
            i <= vb@.len(),
            va@ == a@,
            vb@ == b@,
            ascii_lower_seq(va@.take(i as int)) == ascii_lower_seq(vb@.take(i as int)),
        decreases va.len() - i,
    {
        if to_ascii_lower(va[i]) != to_ascii_lower(vb[i]) {
            proof {
                assert(ascii_lower_seq(va@)[i as int] != ascii_lower_seq(vb@)[i as int]);
                if ascii_prefix(a@, b@) {
                    assert(ascii_lower_seq(a@)[i as int] == ascii_lower_seq(b@.take(a@.len() as int))[i as int]);
                }
                if ascii_prefix(b@, a@) {
                    assert(ascii_lower_seq(b@)[i as int] == ascii_lower_seq(a@.take(b@.len() as int))[i as int]);
                }
            }
            return false;
        }
        proof {
            assert(ascii_lower_seq(va@.take(i + 1)) =~= ascii_lower_seq(va@.take(i as int)).push(ascii_lower_seq(va@)[i as int]));
            assert(ascii_lower_seq(vb@.take(i + 1)) =~= ascii_lower_seq(vb@.take(i as int)).push(ascii_lower_seq(vb@)[i as int]));
        }
        i += 1;
    }
    if i == va.len() {
        proof {
            assert(va@.take(i as int) =~= va@);
            assert(ascii_prefix(a@, b@));
        }
        utf8_len_gt(&va, 6)
    } else {
        proof {
            assert(vb@.take(i as int) =~= vb@);
            assert(ascii_prefix(b@, a@));
        }
        utf8_len_gt(&vb, 6)
    }
}

proof fn lemma_width_one(c: char)
    requires
        (c as u32) < 0x80,
    ensures
        vstd::utf8::encode_utf8(seq![c]).len() == 1,
{
    assert(seq![c].drop_first() =~= Seq::<char>::empty());
    assert(seq![c][0] == c);
    assert(vstd::utf8::encode_utf8(Seq::<char>::empty()) =~= Seq::<u8>::empty());
    assert(vstd::utf8::encode_utf8(seq![c]) =~= vstd::utf8::encode_scalar(c as u32));
}

proof fn lemma_ascii_case_width(c: char, d: char)
    requires
        crate::text::ascii_lower(c) == crate::text::ascii_lower(d),
    ensures
        vstd::utf8::encode_utf8(seq![c]).len() == vstd::utf8::encode_utf8(seq![d]).len(),
{
    if c != d {
        vstd::utf8::char_u32_cast(c, c as u32);
        vstd::utf8::char_u32_cast(d, d as u32);
        let lc = crate::text::ascii_lower(c);
        vstd::utf8::char_is_scalar(lc);
        if 'A' <= c && c <= 'Z' {
            assert((c as u32) < 0x80);
            lemma_width_one(c);
            if 'A' <= d && d <= 'Z' {
                assert((d as u32) < 0x80);
                lemma_width_one(d);
            } else {
                assert(d == lc);
                assert((lc as u32) == (c as u32) + 32);
                lemma_width_one(d);
            }
        } else {
            assert(c == lc);
            assert('A' <= d && d <= 'Z');
            assert((d as u32) < 0x80);
            lemma_width_one(d);
            assert((lc as u32) == (d as u32) + 32);
            lemma_width_one(c);
        }
    }
}

proof fn lemma_ascii_case_len(a: Seq<char>, b: Seq<char>)
    requires
        a.len() == b.len(),
        ascii_lower_seq(a) == ascii_lower_seq(b),
    ensures
        utf8_len(a) == utf8_len(b),
    decreases a.len(),
{
    if a.len() > 0 {
        let n = a.len() - 1;
        assert(ascii_lower_seq(a.drop_last()) =~= ascii_lower_seq(a).drop_last());
        assert(ascii_lower_seq(b.drop_last()) =~= ascii_lower_seq(b).drop_last());
        lemma_ascii_case_len(a.drop_last(), b.drop_last());
        assert(a =~= a.drop_last() + seq![a.last()]);
        assert(b =~= b.drop_last() + seq![b.last()]);
        crate::text::lemma_encode_concat(a.drop_last(), seq![a.last()]);
        crate::text::lemma_encode_concat(b.drop_last(), seq![b.last()]);
        assert(ascii_lower_seq(a)[n] == ascii_lower_seq(b)[n]);
        assert(ascii_lower_seq(a)[n] == crate::text::ascii_lower(a[n]));
        assert(ascii_lower_seq(b)[n] == crate::text::ascii_lower(b[n]));
        lemma_ascii_case_width(a.last(), b.last());
    }
}

/// `same_git_rev` does not depend on the order of its arguments: the
/// revisions it compares match one way exactly when they match the other.
pub proof fn law_same_git_rev_symmetric(a: Seq<char>, b: Seq<char>)
    ensures
        same_rev(a, b) == same_rev(b, a),
{
    if a.len() == b.len() {
        assert(a.take(a.len() as int) =~= a);
        assert(b.take(b.len() as int) =~= b);
        if ascii_lower_seq(a) == ascii_lower_seq(b) {
            lemma_ascii_case_len(a, b);
        }
    }
}

/// A revision shorter than 7 bytes matches nothing.
pub proof fn law_short_rev_never_matches(a: Seq<char>, b: Seq<char>)
    requires
        utf8_len(a) < 7,
    ensures
        !same_rev(a, b),
        !same_rev(b, a),
{
    law_same_git_rev_symmetric(a, b);
    if b.len() < a.len() && ascii_prefix(b, a) {
        crate::text::lemma_prefix_len_mono(a, b.len() as int, a.len() as int);
        assert(a.take(a.len() as int) =~= a);
        lemma_ascii_case_len(b, a.take(b.len() as int));
    }
}

/// A revision of at least 7 bytes matches each of its own prefixes of at
/// least 7 bytes, itself included.
pub proof fn law_rev_matches_its_prefixes(a: Seq<char>, n: int)
    requires
        0 <= n <= a.len(),
        utf8_len(a.take(n)) >= 7,
    ensures
        same_rev(a, a.take(n)),
        same_rev(a.take(n), a),
{
    assert(a.take(n).take(n) =~= a.take(n));
    if n == a.len() {
        assert(a.take(n) =~= a);
    }
    law_same_git_rev_symmetric(a, a.take(n));
}

/// The line `rebuild_oracle` reports: the counts and the first 12 bytes of
/// the Zed commit.
pub open spec fn oracle_summary_text(n_symbols: nat, n_examples: nat, commit: Seq<char>) -> Seq<char> {
    "[oracle] "@ + decimal(n_symbols) + " symbols, "@ + decimal(n_examples) + " examples, zed "@
        + cut_to_bytes(commit, 12)
}

/// The report of a rebuilt symbol and example index.
pub fn oracle_summary(n_symbols: usize, n_examples: usize, commit: &str) -> (r: String)
    requires
        cuttable(commit@, 12),
    ensures
        r@ == oracle_summary_text(n_symbols as nat, n_examples as nat, commit@),
{
    let mut out = chars_of("[oracle] ");
    push_chars(&mut out, &decimal_chars(n_symbols as u64));
    push_str_chars(&mut out, " symbols, ");
    push_chars(&mut out, &decimal_chars(n_examples as u64));
    push_str_chars(&mut out, " examples, zed ");
    push_chars(&mut out, &cut_at_bytes(&chars_of(commit), 12));
    string_of(&out)
}

/// The roots the example index is built from: each source id with its
/// checkout under the cache.
pub fn example_roots(cache: &str) -> (r: Vec<(String, String)>)
    ensures
        r@.len() == 3,
        r@[0].0@ == "zed-gpui"@,
        r@[0].1@ == join_of(join_of(cache@, "src"@), "zed-gpui"@),
        r@[1].0@ == "tutorial"@,
        r@[1].1@ == join_of(join_of(cache@, "src"@), "tutorial"@),
        r@[2].0@ == "gpui-component"@,
        r@[2].1@ == join_of(join_of(cache@, "src"@), "gpui-component"@),
{
    let src = path_join(cache, "src");
    let mut r: Vec<(String, String)> = Vec::new();
    r.push(("zed-gpui".to_string(), zed_root(cache)));
    r.push(("tutorial".to_string(), path_join(src.as_str(), "tutorial")));
    r.push(("gpui-component".to_string(), path_join(src.as_str(), "gpui-component")));
    r
}

/// The git steps that bring one source up to date.
#[derive(Clone, Debug)]
pub enum SyncStep {
    /// The clone exists and is pinned: check out the revision.
    CheckoutPinned(String),
    /// The clone exists and follows its default branch: pull.
    Pull,
    /// No clone yet, full clone; then check out the revision if pinned.
    CloneFull(Option<String>),
    /// No clone yet, sparse clone of the given paths, at the revision if
    /// pinned (else the default branch).
    CloneSparse(Option<String>),
}

/// The view of an optional revision.
pub open spec fn opt_rev(o: Option<&str>) -> Option<Seq<char>> {
    match o {
        Some(s) => Some(s@),
        None => None,
    }
}

/// The step for a source, given whether its `.git` exists, whether it is a
/// full (not sparse) clone, and its pin.
pub open spec fn sync_step_for(has_git: bool, full_clone: bool, pin: Option<Seq<char>>) -> (
    nat,
    Option<Seq<char>>,
) {
    if has_git {
        match pin {
            Some(rev) => (0, Some(rev)),
            None => (1, None),
        }
    } else if full_clone {
        (2, pin)
    } else {
        (3, pin)
    }
}

/// The tag and revision of a step, in the shape of `sync_step_for`.
pub open spec fn step_shape(s: SyncStep) -> (nat, Option<Seq<char>>) {
    match s {
        SyncStep::CheckoutPinned(rev) => (0, Some(rev@)),
        SyncStep::Pull => (1, None),
        SyncStep::CloneFull(rev) => (2, crate::sources::opt_string_view(rev)),
        SyncStep::CloneSparse(rev) => (3, crate::sources::opt_string_view(rev)),
    }
}

/// Decides how to bring one source up to date: an existing clone is checked
/// out at its pin or pulled; a missing one is cloned, fully or sparsely.
pub fn plan_sync(has_git: bool, full_clone: bool, pin: Option<&str>) -> (r: SyncStep)
    ensures
        step_shape(r) == sync_step_for(has_git, full_clone, opt_rev(pin)),
{
    let rev: Option<String> = match pin {
        Some(p) => Some(p.to_string()),
        None => None,
    };
    if has_git {
        match rev {
            Some(p) => SyncStep::CheckoutPinned(p),
            None => SyncStep::Pull,
        }
    } else if full_clone {
        SyncStep::CloneFull(rev)
    } else {
        SyncStep::CloneSparse(rev)
    }
}

/// The log line of one source: `[id] message`, or `[id] ERROR: error`.
pub open spec fn source_line(id: Seq<char>, res: Result<Seq<char>, Seq<char>>) -> Seq<char> {
    match res {
        Ok(m) => "["@ + id + "] "@ + m,
        Err(e) => "["@ + id + "] ERROR: "@ + e,
    }
}

/// The line of the index rebuild: its message, or `[oracle] ERROR: error`.
pub open spec fn oracle_line(res: Result<Seq<char>, Seq<char>>) -> Seq<char> {
    match res {
        Ok(m) => m,
        Err(e) => "[oracle] ERROR: "@ + e,
    }
}

/// The view of a result of strings.
pub open spec fn res_views(r: Result<String, String>) -> Result<Seq<char>, Seq<char>> {
    match r {
        Ok(s) => Ok(s@),
        Err(e) => Err(e@),
    }
}

/// The lines of the sources' results, in order.
pub open spec fn source_lines(results: Seq<(String, Result<String, String>)>) -> Seq<Seq<char>> {
    results.map_values(|x: (String, Result<String, String>)| source_line(x.0@, res_views(x.1)))
}

/// The log of `sync`: one line per source, then the line of the index
/// rebuild, joined by newlines.
pub fn sync_log(results: &Vec<(String, Result<String, String>)>, oracle: &Result<String, String>) -> (r: String)
    ensures
        r@ == join_seqs(source_lines(results@).push(oracle_line(res_views(*oracle))), "\n"@),
{
    let mut lines: Vec<String> = Vec::new();
    let mut i: usize = 0;
    while i < results.len()
        invariant
            i <= results.len(),
            string_views(lines@) == source_lines(results@.take(i as int)),
        decreases results.len() - i,
    {
        let mut line = chars_of("[");
        push_str_chars(&mut line, results[i].0.as_str());
        match &results[i].1 {
            Ok(m) => {
                push_str_chars(&mut line, "] ");
                push_str_chars(&mut line, m.as_str());
            },
            Err(e) => {
                push_str_chars(&mut line, "] ERROR: ");
                push_str_chars(&mut line, e.as_str());
            },
        }
        let ghost before = lines@;
        let ls = string_of(&line);
        proof {
            assert(ls@ == source_line(results@[i as int].0@, res_views(results@[i as int].1)));
        }
        lines.push(ls);
        proof {
            assert(results@.take(i + 1) =~= results@.take(i as int).push(results@[i as int]));
            assert(source_lines(results@.take(i + 1)) =~= source_lines(results@.take(i as int)).push(
                source_line(results@[i as int].0@, res_views(results@[i as int].1)),
            ));
            assert(lines@ == before.push(ls));
            assert(string_views(lines@) =~= string_views(before).push(ls@));
        }
        i += 1;
    }
    let last: String = match oracle {
        Ok(m) => m.clone(),
        Err(e) => {
            let mut line = chars_of("[oracle] ERROR: ");
            push_str_chars(&mut line, e.as_str());
            string_of(&line)
        },
    };
    lines.push(last);
    proof {
        assert(results@.take(results.len() as int) =~= results@);
        assert(string_views(lines@) =~= source_lines(results@).push(oracle_line(res_views(*oracle))));
    }
    join_strings(&lines, "\n")
}

/// The part of a failed command's stderr that is reported: trimmed, at most
/// 800 characters.
pub fn stderr_excerpt(stderr: &str) -> (r: String)
    ensures
        r@ == trim(stderr@).take(if trim(stderr@).len() < 800 { trim(stderr@).len() as int } else { 800 }),
{
    let t = trim_chars(&chars_of(stderr));
    let mut out: Vec<char> = Vec::new();
    let mut i: usize = 0;
    while i < t.len() && i < 800
        invariant
            i <= t.len(),
            i <= 800,
            out@ == t@.take(i as int),
        decreases t.len() - i,
    {
        out.push(t[i]);
        proof {
            assert(t@.take(i + 1) =~= t@.take(i as int).push(t@[i as int]));
        }
        i += 1;
    }
    string_of(&out)
}

/// Whether two revisions can be compared (see `revs_comparable`).
pub fn revs_comparable_exec(a: &str, b: &str) -> (r: bool)
    ensures
        r == revs_comparable(a@, b@),
{
    let va = chars_of(a);
    let vb = chars_of(b);
    let la = crate::text::utf8_len_exec(&va);
    let lb = crate::text::utf8_len_exec(&vb);
    let n = if la <= lb { la } else { lb };
    if n < 7 {
        return true;
    }
    crate::text::cuttable_exec(&va, n) && crate::text::cuttable_exec(&vb, n)
}

} // verus!
