use gpui_docs::index::{
    classify, file_meta, gotchas_doc, is_example_rs, normalize_id, path_is_skipped, push_file,
    rel_unix, title_from_path, Corpus, Doc, GOTCHAS_BODY,
};

fn doc(id: &str, source: &str, kind: &str, title: &str, body: &str) -> Doc {
    Doc::new(id, source, kind, title, id, body)
}

fn corpus(docs: Vec<Doc>) -> Corpus {
    Corpus { docs, missing: Vec::new() }
}

#[test]
fn search_ranks_title_hits() {
    let c = corpus(vec![
        doc("book/a.md", "book", "doc", "Entity notify", "other text"),
        doc("book/b.md", "book", "doc", "unrelated", "entity appears in body"),
    ]);
    let hits = c.search("entity", None, 8);
    assert_eq!(hits[0].1.id, "book/a.md");
    assert!(hits[0].0 > hits[1].0);
}

#[test]
fn search_filters_source() {
    let c = corpus(vec![
        doc("book/a.md", "book", "doc", "div", "div"),
        doc("tutorial/a.md", "tutorial", "doc", "div", "div"),
    ]);
    let hits = c.search("div", Some("book"), 8);
    assert_eq!(hits.len(), 1);
    assert_eq!(hits[0].1.source, "book");
}

#[test]
fn get_matches_path_suffix_and_filename_not_suffix_collision() {
    let c = corpus(vec![
        doc("zed-gpui/crates/gpui/examples/hello_world.rs", "zed-gpui", "example", "hello world", "fn main() {}"),
        doc("book/barfoo.md", "book", "doc", "barfoo", "x"),
        doc("book/foo.md", "book", "doc", "foo", "y"),
    ]);
    assert_eq!(
        c.get("zed-gpui/crates/gpui/examples/hello_world.rs").unwrap().id,
        "zed-gpui/crates/gpui/examples/hello_world.rs"
    );
    assert!(c.get("hello_world.rs").is_some());
    assert!(c.get("HELLO_WORLD.RS").is_some());
    assert_eq!(c.get("foo.md").unwrap().id, "book/foo.md");
    assert!(c.get("missing").is_none());
    assert_eq!(c.get("examples/hello_world.rs").unwrap().id, "zed-gpui/crates/gpui/examples/hello_world.rs");
}

#[test]
fn snippet_prefers_matching_line() {
    let d = doc("x.md", "book", "doc", "t", "blankish\n\nEntity::new lives here\nfooter");
    assert!(d.snippet("entity").contains("Entity::new"));
}

#[test]
fn skip_git_and_target_on_any_separator() {
    assert!(path_is_skipped(".git/config"));
    assert!(path_is_skipped("foo/target/x.rs"));
    assert!(path_is_skipped("a/../b.md"));
    assert!(!path_is_skipped("src/lib.rs"));
}

#[test]
fn gotchas_are_embedded() {
    assert!(GOTCHAS_BODY.contains("gpui_platform"));
}

#[test]
fn title_from_path_replaces_underscores() {
    assert_eq!(title_from_path("hello_world.rs"), "hello world");
}

#[test]
fn rel_unix_strips_root() {
    let root = "/cache/src";
    let path = "/cache/src/book/foo.md";
    assert_eq!(rel_unix(path, root), "book/foo.md");
}

#[test]
fn search_scores_title_id_and_body() {
    let c = corpus(vec![doc("book/entity.md", "book", "doc", "Entity basics", "entity entity")]);
    let hits = c.search("Entity", None, 8);
    // title 8 + id 4 + two body occurrences
    assert_eq!(hits[0].0, 14);
    let capped = corpus(vec![doc("book/x.md", "book", "doc", "x", &"div ".repeat(20))]);
    assert_eq!(capped.search("div", None, 8)[0].0, 12);
}

#[test]
fn search_needs_a_word_and_respects_limit() {
    let c = corpus(vec![
        doc("book/a.md", "book", "doc", "div one", "div"),
        doc("book/b.md", "book", "doc", "div two", "div"),
        doc("book/c.md", "book", "doc", "div three", "div"),
    ]);
    assert!(c.search("a", None, 8).is_empty());
    assert!(c.search("   ", None, 8).is_empty());
    assert_eq!(c.search("div", None, 2).len(), 2);
    assert!(c.search("div", Some("BOOK"), 8).len() == 3);
    assert!(c.search("div", Some("awesome"), 8).is_empty());
}

#[test]
fn get_normalizes_backslashes_and_spaces() {
    let c = corpus(vec![doc("book/src/div.md", "book", "doc", "div", "x")]);
    assert_eq!(c.get("  book\\src\\div.md ").unwrap().id, "book/src/div.md");
    assert!(c.get("   ").is_none());
    assert_eq!(normalize_id(" a\\b "), "a/b");
}

#[test]
fn examples_are_sorted_by_id() {
    let c = corpus(vec![
        doc("z/examples/b.rs", "zed-gpui", "example", "b", "x"),
        doc("book/a.md", "book", "doc", "a", "x"),
        doc("a/examples/a.rs", "zed-gpui", "example", "a", "x"),
    ]);
    let ids: Vec<&str> = c.examples().iter().map(|d| d.id.as_str()).collect();
    assert_eq!(ids, vec!["a/examples/a.rs", "z/examples/b.rs"]);
}

#[test]
fn classifies_docs_and_examples() {
    assert_eq!(classify("book", "src/intro.md", "md"), Some("doc"));
    assert_eq!(classify("book", "README.MD", "MD"), Some("doc"));
    assert_eq!(classify("zed-gpui", "crates/gpui/examples/a.rs", "rs"), Some("example"));
    assert_eq!(classify("zed-gpui", "crates/gpui/src/a.rs", "rs"), None);
    assert_eq!(classify("tutorial", "src/main.rs", "rs"), Some("example"));
    assert!(is_example_rs("gpui-component", "crates/story/src/button.rs"));
    assert!(!is_example_rs("awesome", "src/lib.rs"));
    assert_eq!(classify("book", "a.txt", "txt"), None);
}

#[test]
fn file_meta_and_push_file() {
    let m = file_meta("book", "/cache/src/book", "/cache/src/book/src/state_management.md").unwrap();
    assert_eq!(m.id, "book/src/state_management.md");
    assert_eq!(m.kind, "doc");
    assert_eq!(m.title, "state management");
    assert!(file_meta("book", "/cache/src/book", "/cache/src/book/.git/HEAD.md").is_none());
    assert!(file_meta("book", "/cache/src/book", "/cache/src/book/LICENSE").is_none());
    let mut docs = vec![gotchas_doc()];
    push_file(&mut docs, &m, "book", "/cache/src/book/src/state_management.md", "  \n ");
    assert_eq!(docs.len(), 1);
    push_file(&mut docs, &m, "book", "/cache/src/book/src/state_management.md", "# State");
    assert_eq!(docs.len(), 2);
    assert_eq!(docs[1].id, "book/src/state_management.md");
    assert_eq!(docs[0].id, "gotchas");
    assert_eq!(docs[0].body, GOTCHAS_BODY);
}

#[test]
fn normalizing_an_id_twice_changes_nothing() {
    for id in [" a\\b\\c.md ", "\u{3000}x\\y\u{2028}", "plain", "", " \\ "] {
        let once = normalize_id(id);
        assert!(!once.contains('\\'));
        assert_eq!(normalize_id(&once), once);
    }
    assert_eq!(normalize_id("\u{3000}x\\y\u{2028}"), "x/y");
}

#[test]
fn examples_with_equal_ids_keep_corpus_order() {
    let c = corpus(vec![
        Doc::new("b.rs", "zed-gpui", "example", "second", "b.rs", "x"),
        Doc::new("a.rs", "zed-gpui", "example", "first a", "a.rs", "x"),
        Doc::new("a.rs", "zed-gpui", "example", "second a", "a.rs", "x"),
        Doc::new("a.md", "book", "doc", "doc", "a.md", "x"),
    ]);
    let titles: Vec<&str> = c.examples().iter().map(|d| d.title.as_str()).collect();
    assert_eq!(titles, vec!["first a", "second a", "second"]);
}

#[test]
fn get_resolves_exact_then_suffix_then_file_name() {
    let c = corpus(vec![
        Doc::new("x/guide/intro.md", "book", "doc", "t", "/c/x/guide/intro.md", "x"),
        Doc::new("guide/intro.md", "book", "doc", "t", "/c/guide/intro.md", "x"),
        Doc::new("y/README.md", "book", "doc", "t", "/c/y/README.md", "x"),
    ]);
    assert_eq!(c.get("guide/intro.md").unwrap().id, "guide/intro.md");
    assert_eq!(c.get("z/intro.md").unwrap().id, "x/guide/intro.md");
    assert_eq!(c.get("readme.MD").unwrap().id, "y/README.md");
    assert!(c.get("nothing.md").is_none());
}

#[test]
fn snippet_is_a_trimmed_body_line() {
    let d = Doc::new("a.md", "book", "doc", "t", "a.md", "  \n   first line  \n  Entity here  \n");
    assert_eq!(d.snippet("entity"), "Entity here");
    assert_eq!(d.snippet("zzz"), "first line");
    let blank = Doc::new("b.md", "book", "doc", "t", "b.md", "  \n\t\n");
    assert_eq!(blank.snippet("zzz"), "");
}

#[test]
fn search_keeps_corpus_order_among_equal_scores_and_cuts_at_limit() {
    let c = corpus(vec![
        doc("c.md", "book", "doc", "t", "render"),
        doc("a.md", "book", "doc", "t", "render"),
        doc("b.md", "book", "doc", "t", "render render"),
        doc("d.md", "tutorial", "doc", "t", "render"),
    ]);
    let ids: Vec<&str> = c.search("render", None, 10).iter().map(|(_, d)| d.id.as_str()).collect();
    assert_eq!(ids, vec!["b.md", "c.md", "a.md", "d.md"]);
    let cut: Vec<(u32, &str)> = c.search("render", Some("book"), 2).iter().map(|(s, d)| (*s, d.id.as_str())).collect();
    assert_eq!(cut, vec![(2, "b.md"), (1, "c.md")]);
}
