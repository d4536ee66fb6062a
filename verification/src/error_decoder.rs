//! Turns rustc error text about GPUI into diagnoses: known patterns first,
//! else a lookup of the GPUI names the error mentions.
//!
//! Regular expressions are compiled and run by the `regex` crate. What it
//! answers (whether a pattern compiles, whether it matches a text, what its
//! first group captures) depends on the pattern and the text alone and is
//! given a name here.

use vstd::prelude::*;

use crate::api_index::{
    dedup_seqs, kind_debug, lemma_sorted_key_views, lookup, lookup_hits, sort_lex, take_at_most,
    ApiIndex, ApiSymbol, StrKey,
};
use crate::example_index::sorted_unique;
use crate::text::{
    chars_of, join_seqs, join_strings, push_str_chars, string_of, string_views,
};

verus! {

/// The compiled regular expression, carried through opaquely.
#[verifier::external_type_specification]
#[verifier::external_body]
pub struct ExRegex(regex::Regex);

/// Whether `Regex::new` accepts the pattern.
pub uninterp spec fn regex_valid(pattern: Seq<char>) -> bool;

/// Whether the regex compiled from `pattern` matches somewhere in `text`.
pub uninterp spec fn regex_is_match(pattern: Seq<char>, text: Seq<char>) -> bool;

/// For each successive match of the regex compiled from `pattern` in `text`
/// (what `captures_iter` yields), what its first group captured.
pub uninterp spec fn regex_group1(pattern: Seq<char>, text: Seq<char>) -> Seq<Option<Seq<char>>>;

/// A regular expression together with the pattern it was compiled from.
/// Values are made only by `compile`.
pub struct CompiledRegex {
    pattern: String,
    re: regex::Regex,
}

impl CompiledRegex {
    /// The pattern the regex was compiled from.
    pub closed spec fn pattern_view(&self) -> Seq<char> {
        self.pattern@
    }
}

/// Calls `Regex::new`; it succeeds exactly when `regex_valid` holds of the
/// pattern.
#[verifier::external_body]
fn regex_new(pattern: &str) -> (r: Option<regex::Regex>)
    ensures
        r is Some <==> regex_valid(pattern@),
{
    regex::Regex::new(pattern).ok()
}

/// Compiles a pattern, or `None` when `Regex::new` refuses it.
pub fn compile(pattern: &str) -> (r: Option<CompiledRegex>)
    ensures
        r is Some <==> regex_valid(pattern@),
        r matches Some(c) ==> c.pattern_view() == pattern@,
{
    match regex_new(pattern) {
        Some(re) => Some(CompiledRegex { pattern: pattern.to_string(), re }),
        None => None,
    }
}

/// Calls `Regex::is_match` on the regex, which was compiled from its
/// pattern; the result is named `regex_is_match`.
#[verifier::external_body]
fn regex_matches(re: &CompiledRegex, text: &str) -> (r: bool)
    ensures
        r == regex_is_match(re.pattern_view(), text@),
{
    re.re.is_match(text)
}

/// The option of views of optional strings.
pub open spec fn opt_views(s: Seq<Option<String>>) -> Seq<Option<Seq<char>>> {
    s.map_values(|o: Option<String>| crate::paths::opt_view(o))
}

/// Calls `Regex::captures_iter` and gives, for each match, what its first
/// group captured; the list is named `regex_group1`.
#[verifier::external_body]
fn regex_captures1(re: &CompiledRegex, text: &str) -> (r: Vec<Option<String>>)
    ensures
        opt_views(r@) == regex_group1(re.pattern_view(), text@),
{
    re.re.captures_iter(text).map(|c| c.get(1).map(|m| m.as_str().to_string())).collect()
}

/// A diagnosis of an error.
#[derive(Clone, Debug)]
pub struct Diagnosis {
    pub pattern_id: String,
    pub explanation: String,
    pub fix: String,
    pub related_symbols: Vec<String>,
    pub related_recipe: Option<String>,
}

/// A known error pattern and what it means.
#[derive(Clone, Debug)]
pub struct ErrorPattern {
    pub id: String,
    /// Regular expressions, each tried case-insensitively with `.` matching
    /// newlines.
    pub regexes: Vec<String>,
    pub explanation: String,
    pub fix: String,
    pub symbols: Vec<String>,
    pub recipe: Option<String>,
}

/// A diagnosis as plain values: id, explanation, fix, symbols, recipe.
pub type DiagView = (Seq<char>, Seq<char>, Seq<char>, Seq<Seq<char>>, Option<Seq<char>>);

/// A pattern as plain values: id, regexes, explanation, fix, symbols, recipe.
pub type PatternView = (Seq<char>, Seq<Seq<char>>, Seq<char>, Seq<char>, Seq<Seq<char>>, Option<Seq<char>>);

/// The plain values of a diagnosis.
pub open spec fn diag_view(d: Diagnosis) -> DiagView {
    (d.pattern_id@, d.explanation@, d.fix@, string_views(d.related_symbols@), crate::paths::opt_view(d.related_recipe))
}

/// The plain values of diagnoses.
pub open spec fn diag_views(s: Seq<Diagnosis>) -> Seq<DiagView> {
    s.map_values(|d: Diagnosis| diag_view(d))
}

/// The plain values of a pattern.
pub open spec fn pattern_view(p: ErrorPattern) -> PatternView {
    (p.id@, string_views(p.regexes@), p.explanation@, p.fix@, string_views(p.symbols@), crate::paths::opt_view(p.recipe))
}

/// The plain values of patterns.
pub open spec fn pattern_views(s: Seq<ErrorPattern>) -> Seq<PatternView> {
    s.map_values(|p: ErrorPattern| pattern_view(p))
}

/// A pattern's regex with the flags every pattern is compiled with.
pub open spec fn flagged(r: Seq<char>) -> Seq<char> {
    "(?is)"@ + r
}

/// Some regex of the pattern compiles and matches the text.
pub open spec fn pattern_matches(p: PatternView, text: Seq<char>) -> bool {
    exists|j: int|
        0 <= j < p.1.len() && regex_valid(flagged(#[trigger] p.1[j])) && regex_is_match(flagged(p.1[j]), text)
}

/// The diagnosis a pattern gives.
pub open spec fn pattern_diag(p: PatternView) -> DiagView {
    (p.0, p.2, p.3, p.4, p.5)
}

/// The diagnoses of the patterns that match, in pattern order.
pub open spec fn matched_diags(ps: Seq<PatternView>, text: Seq<char>) -> Seq<DiagView>
    decreases ps.len(),
{
    if ps.len() == 0 {
        seq![]
    } else {
        let prev = matched_diags(ps.drop_last(), text);
        if pattern_matches(ps.last(), text) {
            prev.push(pattern_diag(ps.last()))
        } else {
            prev
        }
    }
}

/// The pattern that finds `gpui::Name` paths.
pub open spec fn gpui_path_re() -> Seq<char> {
    "gpui::([A-Za-z0-9_]+)"@
}

/// The pattern that finds "method named `name`".
pub open spec fn method_named_re() -> Seq<char> {
    "method named [`']([A-Za-z0-9_]+)[`']"@
}

/// The captured values, in order.
pub open spec fn somes(s: Seq<Option<Seq<char>>>) -> Seq<Seq<char>>
    decreases s.len(),
{
    if s.len() == 0 {
        seq![]
    } else {
        match s.last() {
            Some(v) => somes(s.drop_last()).push(v),
            None => somes(s.drop_last()),
        }
    }
}

/// What a pattern's first group captures in the text; nothing when the
/// pattern does not compile.
pub open spec fn captured(pattern: Seq<char>, text: Seq<char>) -> Seq<Seq<char>> {
    if regex_valid(pattern) {
        somes(regex_group1(pattern, text))
    } else {
        seq![]
    }
}

/// The names the fallback looks up: those after `gpui::` and those of
/// methods named in the text, sorted, without repeats, at most 5.
pub open spec fn fallback_names(text: Seq<char>) -> Seq<Seq<char>> {
    take_at_most(dedup_seqs(sort_lex(captured(gpui_path_re(), text) + captured(method_named_re(), text))), 5)
}

/// The line of a symbol in a fallback fix: name, kind, signature.
pub open spec fn symbol_line(s: ApiSymbol) -> Seq<char> {
    s.name@ + " ("@ + kind_debug(s.kind) + ") "@ + s.signature@
}

/// The fallback lines for a name: its three best matches.
pub open spec fn fallback_lines(syms: Seq<ApiSymbol>, n: Seq<char>) -> Seq<Seq<char>> {
    lookup_hits(syms, n, None, 3).map_values(|h: crate::api_index::SymbolHit| symbol_line(syms[h.idx as int]))
}

/// The fallback diagnosis for a name.
pub open spec fn fallback_diag(syms: Seq<ApiSymbol>, n: Seq<char>) -> DiagView {
    (
        "fallback_symbol_lookup"@,
        "No pattern matched; nearest GPUI symbols for `"@ + n + "`:"@,
        join_seqs(fallback_lines(syms, n), "\n"@),
        seq![n],
        None,
    )
}

/// The fallback diagnoses of the names that match some symbol, in order.
pub open spec fn fallback_diags_of(syms: Seq<ApiSymbol>, names: Seq<Seq<char>>) -> Seq<DiagView>
    decreases names.len(),
{
    if names.len() == 0 {
        seq![]
    } else {
        let prev = fallback_diags_of(syms, names.drop_last());
        if lookup_hits(syms, names.last(), None, 3).len() > 0 {
            prev.push(fallback_diag(syms, names.last()))
        } else {
            prev
        }
    }
}

/// What `decode` answers: the diagnoses of the matching patterns, or, when
/// none matches, the fallback lookups.
pub open spec fn decode_result(text: Seq<char>, ps: Seq<PatternView>, syms: Seq<ApiSymbol>) -> Seq<DiagView> {
    let m = matched_diags(ps, text);
    if m.len() > 0 {
        m
    } else {
        fallback_diags_of(syms, fallback_names(text))
    }
}

/// The diagnosis of a pattern.
fn to_diagnosis(p: &ErrorPattern) -> (d: Diagnosis)
    ensures
        diag_view(d) == pattern_diag(pattern_view(*p)),
{
    Diagnosis {
        pattern_id: p.id.clone(),
        explanation: p.explanation.clone(),
        fix: p.fix.clone(),
        related_symbols: p.symbols.clone(),
        related_recipe: p.recipe.clone(),
    }
}

/// Whether some regex of the pattern compiles and matches.
fn matches_text(p: &ErrorPattern, text: &str) -> (r: bool)
    ensures
        r == pattern_matches(pattern_view(*p), text@),
{
    let ghost pv = pattern_view(*p);
    let mut j: usize = 0;
    while j < p.regexes.len()
        invariant
            j <= p.regexes@.len(),
            pv == pattern_view(*p),
            forall|k: int|
                0 <= k < j ==> !(regex_valid(flagged(#[trigger] pv.1[k])) && regex_is_match(flagged(pv.1[k]), text@)),
        decreases p.regexes@.len() - j,
    {
        let mut full = chars_of("(?is)");
        push_str_chars(&mut full, p.regexes[j].as_str());
        let fs = string_of(&full);
        proof {
            assert(pv.1[j as int] == p.regexes@[j as int]@);
            assert(fs@ == flagged(pv.1[j as int]));
        }
        match compile(fs.as_str()) {
            Some(re) => {
                if regex_matches(&re, text) {
                    return true;
                }
            },
            None => {},
        }
        j += 1;
    }
    false
}

/// What a pattern's first group captures, appended to `keys`.
fn push_captured(keys: &mut Vec<StrKey>, pattern: &str, text: &str)
    ensures
        crate::api_index::key_views(final(keys)@) == crate::api_index::key_views(old(keys)@) + captured(pattern@, text@),
{
    match compile(pattern) {
        Some(re) => {
            let caps = regex_captures1(&re, text);
            let ghost gs = opt_views(caps@);
            let ghost start = crate::api_index::key_views(keys@);
            let mut i: usize = 0;
            while i < caps.len()
                invariant
                    i <= caps@.len(),
                    gs == opt_views(caps@),
                    crate::api_index::key_views(keys@) == start + somes(gs.take(i as int)),
                decreases caps@.len() - i,
            {
                proof {
                    assert(gs.take(i + 1).drop_last() =~= gs.take(i as int));
                    assert(gs.take(i + 1).last() == crate::paths::opt_view(caps@[i as int]));
                }
                match &caps[i] {
                    Some(n) => {
                        let ghost before = keys@;
                        keys.push(StrKey { s: n.clone() });
                        assert(crate::api_index::key_views(keys@) =~= crate::api_index::key_views(before).push(n@));
                    },
                    None => {},
                }
                i += 1;
            }
            assert(gs.take(caps@.len() as int) =~= gs);
        },
        None => {
            assert(crate::api_index::key_views(keys@) =~= crate::api_index::key_views(keys@) + Seq::<Seq<char>>::empty());
        },
    }
}

/// The fallback diagnosis for a name, when some symbol matches it.
fn fallback_one(api: &ApiIndex, n: &String) -> (r: Option<Diagnosis>)
    ensures
        lookup_hits(api.symbols@, n@, None, 3).len() > 0 <==> r is Some,
        r matches Some(d) ==> diag_view(d) == fallback_diag(api.symbols@, n@),
{
    let hits = lookup(api, n.as_str(), None, 3);
    let ghost hs = lookup_hits(api.symbols@, n@, None, 3);
    if hits.len() == 0 {
        return None;
    }
    let mut lines: Vec<String> = Vec::new();
    let mut k: usize = 0;
    while k < hits.len()
        invariant
            k <= hits@.len(),
            hits@.len() == hs.len(),
            hs == lookup_hits(api.symbols@, n@, None, 3),
            forall|j: int|
                0 <= j < hits@.len() ==> {
                    let h = #[trigger] hs[j];
                    h.idx < api.symbols@.len() && *hits@[j] == api.symbols@[h.idx as int]
                },
            string_views(lines@) == fallback_lines(api.symbols@, n@).take(k as int),
        decreases hits@.len() - k,
    {
        let s = hits[k];
        let mut line = chars_of(s.name.as_str());
        push_str_chars(&mut line, " (");
        push_str_chars(&mut line, s.kind.name());
        push_str_chars(&mut line, ") ");
        push_str_chars(&mut line, s.signature.as_str());
        let ls = string_of(&line);
        let ghost before = lines@;
        lines.push(ls);
        proof {
            assert(hs[k as int].idx < api.symbols@.len());
            assert(ls@ == symbol_line(api.symbols@[hs[k as int].idx as int]));
            assert(fallback_lines(api.symbols@, n@).take(k + 1) =~= fallback_lines(api.symbols@, n@).take(
                k as int,
            ).push(ls@));
            assert(string_views(lines@) =~= string_views(before).push(ls@));
        }
        k += 1;
    }
    assert(fallback_lines(api.symbols@, n@).take(hits@.len() as int) =~= fallback_lines(api.symbols@, n@));
    let mut expl = chars_of("No pattern matched; nearest GPUI symbols for `");
    push_str_chars(&mut expl, n.as_str());
    push_str_chars(&mut expl, "`:");
    let mut related: Vec<String> = Vec::new();
    related.push(n.clone());
    assert(string_views(related@) =~= seq![n@]);
    Some(Diagnosis {
        pattern_id: "fallback_symbol_lookup".to_string(),
        explanation: string_of(&expl),
        fix: join_strings(&lines, "\n"),
        related_symbols: related,
        related_recipe: None,
    })
}

/// The fallback diagnoses: lookups of the GPUI names the text mentions.
fn fallback_lookups(error_text: &str, api: &ApiIndex) -> (r: Vec<Diagnosis>)
    ensures
        diag_views(r@) == fallback_diags_of(api.symbols@, fallback_names(error_text@)),
{
    let mut keys: Vec<StrKey> = Vec::new();
    push_captured(&mut keys, "gpui::([A-Za-z0-9_]+)", error_text);
    push_captured(&mut keys, "method named [`']([A-Za-z0-9_]+)[`']", error_text);
    proof {
        assert(crate::api_index::key_views(keys@) =~= captured(gpui_path_re(), error_text@) + captured(
            method_named_re(),
            error_text@,
        ));
        lemma_sorted_key_views(keys@);
    }
    let names = sorted_unique(keys);
    let ghost all = names@.map_values(|x: String| x@);
    let ghost fnames = fallback_names(error_text@);
    assert(all == dedup_seqs(sort_lex(crate::api_index::key_views(keys@))));
    let n_take: usize = if names.len() < 5 { names.len() } else { 5 };
    assert(fnames =~= all.take(n_take as int));
    let mut r: Vec<Diagnosis> = Vec::new();
    let mut i: usize = 0;
    while i < n_take
        invariant
            i <= n_take <= names@.len(),
            all == names@.map_values(|x: String| x@),
            fnames == all.take(n_take as int),
            diag_views(r@) == fallback_diags_of(api.symbols@, fnames.take(i as int)),
        decreases n_take - i,
    {
        proof {
            assert(fnames.take(i + 1).drop_last() =~= fnames.take(i as int));
            assert(fnames.take(i + 1).last() == names@[i as int]@);
        }
        match fallback_one(api, &names[i]) {
            Some(d) => {
                let ghost before = r@;
                r.push(d);
                assert(diag_views(r@) =~= diag_views(before).push(diag_view(d)));
            },
            None => {},
        }
        i += 1;
    }
    assert(fnames.take(n_take as int) =~= fnames);
    r
}

/// Diagnoses of an error text against the given patterns: those of the
/// patterns that match, in order; when none matches, the symbols nearest to
/// each GPUI name the error mentions.
pub fn decode_with(error_text: &str, patterns: &Vec<ErrorPattern>, api: &ApiIndex) -> (r: Vec<Diagnosis>)
    ensures
        diag_views(r@) == decode_result(error_text@, pattern_views(patterns@), api.symbols@),
{
    let ghost pv = pattern_views(patterns@);
    let mut out: Vec<Diagnosis> = Vec::new();
    let mut i: usize = 0;
    while i < patterns.len()
        invariant
            i <= patterns@.len(),
            pv == pattern_views(patterns@),
            diag_views(out@) == matched_diags(pv.take(i as int), error_text@),
        decreases patterns@.len() - i,
    {
        proof {
            assert(pv.take(i + 1).drop_last() =~= pv.take(i as int));
            assert(pv.take(i + 1).last() == pattern_view(patterns@[i as int]));
        }
        if matches_text(&patterns[i], error_text) {
            let d = to_diagnosis(&patterns[i]);
            let ghost before = out@;
            out.push(d);
            assert(diag_views(out@) =~= diag_views(before).push(diag_view(d)));
        }
        i += 1;
    }
    assert(pv.take(patterns@.len() as int) =~= pv);
    if out.len() == 0 {
        fallback_lookups(error_text, api)
    } else {
        out
    }
}

/// The built-in error patterns, as plain values.
pub open spec fn builtin_table() -> Seq<PatternView> {
    seq![
        (
            "old_application_new"@,
            seq!["cannot find (type|struct|value|function) `Application` in (crate|module) `gpui`"@, "Application::new"@, "no function or associated item named `new` found for struct `Application`"@],
            "GPUI apps no longer start with `Application::new()`; the platform entry point is `gpui_platform::application()`."@,
            "Replace `Application::new().run(...)` with `gpui_platform::application().run(|cx: &mut App| ...)` and depend on the `gpui_platform` crate."@,
            seq!["application"@, "App"@],
            Some("window_open"@),
        ),
        (
            "missing_styled"@,
            seq!["no method named `(flex|bg|p[xytblr]?|m[xytblr]?|gap|size|w|h|items|justify|text|border|rounded|shadow|overflow)[A-Za-z0-9_]*` found"@],
            "Tailwind-like styling methods come from the `Styled` trait: they exist on elements such as `div()`, and the trait must be in scope."@,
            "Call the method on an element (`div().flex()`), not on your view struct, and add `use gpui::prelude::*;` (or `use gpui::Styled;`)."@,
            seq!["Styled"@, "div"@],
            Some("window_open"@),
        ),
        (
            "entity_context"@,
            seq!["expected `&mut Context<"@, "(ViewContext|ModelContext|WindowContext)"@, "cannot find type `(View|Model)` in"@],
            "`View<T>`/`Model<T>` are now `Entity<T>`, and the `ViewContext`/`ModelContext`/`WindowContext` family is now `Context<T>` plus a separate `&mut Window`."@,
            "Hold state in `Entity<T>` created with `cx.new(|cx| ...)`, and take `window: &mut Window, cx: &mut Context<Self>` in `render` and in listeners."@,
            seq!["Entity"@, "Context"@, "Window"@],
            Some("entity_state"@),
        ),
        (
            "into_element"@,
            seq!["the trait bound `[^`]*: IntoElement` is not satisfied"@, "expected `impl IntoElement`"@],
            "Only types that implement `IntoElement` can be returned from `render` or passed to `child`."@,
            "Build the tree from elements such as `div()`, pass text with `.child(\"...\")`, and `impl Render` for views that are children."@,
            seq!["IntoElement"@, "Render"@, "ParentElement"@],
            Some("window_open"@),
        ),
        (
            "missing_render"@,
            seq!["the trait bound `[^`]*: Render` is not satisfied"@, "the trait `Render` is not implemented"@],
            "A window's root view, and every view entity used as a child, must have a type that implements `Render`."@,
            "Add `impl Render for MyView { fn render(&mut self, window: &mut Window, cx: &mut Context<Self>) -> impl IntoElement { ... } }`."@,
            seq!["Render"@],
            Some("window_open"@),
        ),
    ]
}

/// The built-in error patterns.
fn builtin_patterns() -> (r: Vec<ErrorPattern>)
    ensures
        pattern_views(r@) == builtin_table(),
{
    let mut r: Vec<ErrorPattern> = Vec::new();
    let mut rx0: Vec<String> = Vec::new();
    rx0.push("cannot find (type|struct|value|function) `Application` in (crate|module) `gpui`".to_string());
    rx0.push("Application::new".to_string());
    rx0.push("no function or associated item named `new` found for struct `Application`".to_string());
    let mut sy0: Vec<String> = Vec::new();
    sy0.push("application".to_string());
    sy0.push("App".to_string());
    assert(string_views(rx0@) =~= seq!["cannot find (type|struct|value|function) `Application` in (crate|module) `gpui`"@, "Application::new"@, "no function or associated item named `new` found for struct `Application`"@]);
    assert(string_views(sy0@) =~= seq!["application"@, "App"@]);
    r.push(ErrorPattern {
        id: "old_application_new".to_string(),
        regexes: rx0,
        explanation: "GPUI apps no longer start with `Application::new()`; the platform entry point is `gpui_platform::application()`.".to_string(),
        fix: "Replace `Application::new().run(...)` with `gpui_platform::application().run(|cx: &mut App| ...)` and depend on the `gpui_platform` crate.".to_string(),
        symbols: sy0,
        recipe: Some("window_open".to_string()),
    });
    let mut rx1: Vec<String> = Vec::new();
    rx1.push("no method named `(flex|bg|p[xytblr]?|m[xytblr]?|gap|size|w|h|items|justify|text|border|rounded|shadow|overflow)[A-Za-z0-9_]*` found".to_string());
    let mut sy1: Vec<String> = Vec::new();
    sy1.push("Styled".to_string());
    sy1.push("div".to_string());
    assert(string_views(rx1@) =~= seq!["no method named `(flex|bg|p[xytblr]?|m[xytblr]?|gap|size|w|h|items|justify|text|border|rounded|shadow|overflow)[A-Za-z0-9_]*` found"@]);
    assert(string_views(sy1@) =~= seq!["Styled"@, "div"@]);
    r.push(ErrorPattern {
        id: "missing_styled".to_string(),
        regexes: rx1,
        explanation: "Tailwind-like styling methods come from the `Styled` trait: they exist on elements such as `div()`, and the trait must be in scope.".to_string(),
        fix: "Call the method on an element (`div().flex()`), not on your view struct, and add `use gpui::prelude::*;` (or `use gpui::Styled;`).".to_string(),
        symbols: sy1,
        recipe: Some("window_open".to_string()),
    });
    let mut rx2: Vec<String> = Vec::new();
    rx2.push("expected `&mut Context<".to_string());
    rx2.push("(ViewContext|ModelContext|WindowContext)".to_string());
    rx2.push("cannot find type `(View|Model)` in".to_string());
    let mut sy2: Vec<String> = Vec::new();
    sy2.push("Entity".to_string());
    sy2.push("Context".to_string());
    sy2.push("Window".to_string());
    assert(string_views(rx2@) =~= seq!["expected `&mut Context<"@, "(ViewContext|ModelContext|WindowContext)"@, "cannot find type `(View|Model)` in"@]);
    assert(string_views(sy2@) =~= seq!["Entity"@, "Context"@, "Window"@]);
    r.push(ErrorPattern {
        id: "entity_context".to_string(),
        regexes: rx2,
        explanation: "`View<T>`/`Model<T>` are now `Entity<T>`, and the `ViewContext`/`ModelContext`/`WindowContext` family is now `Context<T>` plus a separate `&mut Window`.".to_string(),
        fix: "Hold state in `Entity<T>` created with `cx.new(|cx| ...)`, and take `window: &mut Window, cx: &mut Context<Self>` in `render` and in listeners.".to_string(),
        symbols: sy2,
        recipe: Some("entity_state".to_string()),
    });
    let mut rx3: Vec<String> = Vec::new();
    rx3.push("the trait bound `[^`]*: IntoElement` is not satisfied".to_string());
    rx3.push("expected `impl IntoElement`".to_string());
    let mut sy3: Vec<String> = Vec::new();
    sy3.push("IntoElement".to_string());
    sy3.push("Render".to_string());
    sy3.push("ParentElement".to_string());
    assert(string_views(rx3@) =~= seq!["the trait bound `[^`]*: IntoElement` is not satisfied"@, "expected `impl IntoElement`"@]);
    assert(string_views(sy3@) =~= seq!["IntoElement"@, "Render"@, "ParentElement"@]);
    r.push(ErrorPattern {
        id: "into_element".to_string(),
        regexes: rx3,
        explanation: "Only types that implement `IntoElement` can be returned from `render` or passed to `child`.".to_string(),
        fix: "Build the tree from elements such as `div()`, pass text with `.child(\"...\")`, and `impl Render` for views that are children.".to_string(),
        symbols: sy3,
        recipe: Some("window_open".to_string()),
    });
    let mut rx4: Vec<String> = Vec::new();
    rx4.push("the trait bound `[^`]*: Render` is not satisfied".to_string());
    rx4.push("the trait `Render` is not implemented".to_string());
    let mut sy4: Vec<String> = Vec::new();
    sy4.push("Render".to_string());
    assert(string_views(rx4@) =~= seq!["the trait bound `[^`]*: Render` is not satisfied"@, "the trait `Render` is not implemented"@]);
    assert(string_views(sy4@) =~= seq!["Render"@]);
    r.push(ErrorPattern {
        id: "missing_render".to_string(),
        regexes: rx4,
        explanation: "A window's root view, and every view entity used as a child, must have a type that implements `Render`.".to_string(),
        fix: "Add `impl Render for MyView { fn render(&mut self, window: &mut Window, cx: &mut Context<Self>) -> impl IntoElement { ... } }`.".to_string(),
        symbols: sy4,
        recipe: Some("window_open".to_string()),
    });
    assert(pattern_views(r@) =~= builtin_table());
    r
}

/// Diagnoses of rustc error text about GPUI: the built-in patterns that
/// match, in order; when none matches, the symbols nearest to each GPUI name
/// the error mentions.
pub fn decode(error_text: &str, api: &ApiIndex) -> (r: Vec<Diagnosis>)
    ensures
        diag_views(r@) == decode_result(error_text@, builtin_table(), api.symbols@),
{
    let ps = builtin_patterns();
    decode_with(error_text, &ps, api)
}

proof fn lemma_fallback_len(syms: Seq<ApiSymbol>, names: Seq<Seq<char>>)
    ensures
        fallback_diags_of(syms, names).len() <= names.len(),
    decreases names.len(),
{
    if names.len() > 0 {
        lemma_fallback_len(syms, names.drop_last());
    }
}

/// Known patterns come first: when some pattern matches, the answer is
/// exactly the diagnoses of the matching patterns, in pattern order; the
/// symbol lookup only answers when none matches, and then for at most five
/// names.
pub proof fn law_patterns_before_fallback(text: Seq<char>, ps: Seq<PatternView>, syms: Seq<ApiSymbol>)
    ensures
        matched_diags(ps, text).len() > 0 ==> decode_result(text, ps, syms) == matched_diags(ps, text),
        matched_diags(ps, text).len() == 0 ==> decode_result(text, ps, syms).len() <= 5,
{
    lemma_fallback_len(syms, fallback_names(text));
}

proof fn lemma_matched_from(ps: Seq<PatternView>, text: Seq<char>, k: int)
    requires
        0 <= k < matched_diags(ps, text).len(),
    ensures
        exists|i: int| 0 <= i < ps.len() && matched_diags(ps, text)[k] == pattern_diag(#[trigger] ps[i]),
    decreases ps.len(),
{
    let prev = matched_diags(ps.drop_last(), text);
    if k < prev.len() {
        lemma_matched_from(ps.drop_last(), text, k);
        let i = choose|i: int| 0 <= i < ps.drop_last().len() && prev[k] == pattern_diag(#[trigger] ps.drop_last()[i]);
        assert(ps[i] == ps.drop_last()[i]);
    } else {
        assert(matched_diags(ps, text)[k] == pattern_diag(ps[ps.len() - 1]));
    }
}

/// When a built-in pattern matches, `decode` gives no symbol-lookup entry:
/// no diagnosis has the id `fallback_symbol_lookup`, and the answer is the
/// same whatever the symbol index holds.
pub proof fn law_matched_pattern_no_fallback(text: Seq<char>, syms: Seq<ApiSymbol>, other: Seq<ApiSymbol>)
    requires
        matched_diags(builtin_table(), text).len() > 0,
    ensures
        forall|k: int|
            0 <= k < decode_result(text, builtin_table(), syms).len() ==> (#[trigger] decode_result(
                text,
                builtin_table(),
                syms,
            )[k]).0 != "fallback_symbol_lookup"@,
        decode_result(text, builtin_table(), syms) == decode_result(text, builtin_table(), other),
{
    let ps = builtin_table();
    let m = matched_diags(ps, text);
    reveal_strlit("fallback_symbol_lookup");
    reveal_strlit("old_application_new");
    reveal_strlit("missing_styled");
    reveal_strlit("entity_context");
    reveal_strlit("into_element");
    reveal_strlit("missing_render");
    assert forall|i: int| 0 <= i < ps.len() implies (#[trigger] ps[i]).0 != "fallback_symbol_lookup"@ by {
        assert(ps[i].0.len() != "fallback_symbol_lookup"@.len() || ps[i].0[0] != "fallback_symbol_lookup"@[0]);
    }
    assert forall|k: int| 0 <= k < m.len() implies (#[trigger] m[k]).0 != "fallback_symbol_lookup"@ by {
        lemma_matched_from(ps, text, k);
    }
}

/// The fallback looks up at most five names, in strictly ascending order,
/// each captured after `gpui::` or as a method named in the text; when
/// fewer than five are captured, every captured name is looked up.
pub proof fn law_fallback_names(text: Seq<char>)
    ensures
        ({
            let n = fallback_names(text);
            let all = captured(gpui_path_re(), text) + captured(method_named_re(), text);
            &&& n.len() <= 5
            &&& forall|i: int, j: int|
                #![trigger n[i], n[j]]
                0 <= i < j < n.len() ==> crate::text::lex_le(n[i], n[j]) && n[i] != n[j]
            &&& forall|k: int| 0 <= k < n.len() ==> all.contains(#[trigger] n[k])
            &&& n.len() < 5 ==> forall|x: Seq<char>| all.contains(x) ==> n.contains(x)
        }),
{
    let all = captured(gpui_path_re(), text) + captured(method_named_re(), text);
    let srt = crate::api_index::sort_lex(all);
    crate::api_index::lemma_sort_lex(all);
    crate::api_index::lemma_dedup_seqs_ordered(srt);
    let d = crate::api_index::dedup_seqs(srt);
    let n = fallback_names(text);
    assert forall|i: int, j: int|
        #![trigger n[i], n[j]]
        0 <= i < j < n.len() implies crate::text::lex_le(n[i], n[j]) && n[i] != n[j] by {
        assert(n[i] == d[i] && n[j] == d[j]);
    }
    assert forall|k: int| 0 <= k < n.len() implies all.contains(#[trigger] n[k]) by {
        assert(n[k] == d[k]);
        assert(d.contains(d[k]));
    }
}

} // verus!
