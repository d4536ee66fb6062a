use gpui_docs::api_index::{ApiIndex, ApiSymbol, SymbolKind};
use gpui_docs::curated::{Curated, Recipe};
use gpui_docs::example_index::{ExampleEntry, ExampleIndex};
use gpui_docs::index::{Corpus, Doc};
use gpui_docs::server::examples::{clip, example_payload, BODY_LIMIT};
use gpui_docs::server::{
    clamp_limit, decode_reply, example_file_reply, get_example, get_reply, gpui_examples_reply,
    gpui_search_reply, list_entries_reply, list_examples_reply, list_sources_text, recipe_reply,
    scaffold_reply, search_reply, status_reply, styled_reply, symbol_reply, sync_reply,
};
use gpui_docs::sources::{remotes, ZED_PINNED_REV};

fn doc(id: &str, title: &str, body: &str) -> Doc {
    Doc::new(id, "zed-gpui", "example", title, id, body)
}

fn corpus(docs: Vec<Doc>) -> Corpus {
    Corpus { docs, missing: Vec::new() }
}

#[test]
fn clip_does_not_panic_on_multibyte() {
    let s = "é".repeat(200);
    let out = clip(&s, 10);
    assert!(out.contains('…'));
    assert!(out.is_char_boundary(out.find('…').unwrap()));
}

#[test]
fn clip_short_unchanged() {
    assert_eq!(clip("hi", 10), "hi");
}

#[test]
fn example_stem_strips_rs() {
    let c = corpus(vec![doc("zed-gpui/crates/gpui/examples/hello_world.rs", "hello world", "fn main() {}")]);
    let msg = example_payload(&c, "hello_world.rs").unwrap();
    assert!(msg.contains("hello_world.rs"));
    let msg = example_payload(&c, "hello_world").unwrap();
    assert!(msg.contains("hello_world.rs"));
}

#[test]
fn example_ambiguous_without_exact_filename() {
    let c = corpus(vec![
        doc("a/examples/foo_hello.rs", "foo hello", "a"),
        doc("b/examples/bar_hello.rs", "bar hello", "b"),
    ]);
    let err = example_payload(&c, "hello").unwrap_err();
    assert!(err.starts_with("Multiple examples:"));
}

#[test]
fn empty_example_name() {
    let c = corpus(vec![]);
    assert_eq!(example_payload(&c, "  ").unwrap_err(), "Empty example name");
}

#[test]
fn clip_cuts_at_a_character_boundary_exactly() {
    let out = clip("aé", 2);
    assert_eq!(out, "a…\n\n[truncated — call get with this id for the full file]");
    assert_eq!(clip("abcd", 4), "abcd");
    assert!(clip(&"x".repeat(BODY_LIMIT + 1), BODY_LIMIT).starts_with(&"x".repeat(BODY_LIMIT)));
}

#[test]
fn example_payload_messages() {
    let c = corpus(vec![
        doc("a/examples/hello.rs", "hello", "body a"),
        doc("b/examples/hello_more.rs", "hello more", "body b"),
    ]);
    let msg = example_payload(&c, " HELLO.RS ").unwrap();
    assert_eq!(msg, "# a/examples/hello.rs\n# a/examples/hello.rs\n\nbody a");
    assert_eq!(example_payload(&c, "zzz").unwrap_err(), "No example matching \"zzz\"");
    let err = example_payload(&c, "ello").unwrap_err();
    assert_eq!(err, "Multiple examples:\na/examples/hello.rs\nb/examples/hello_more.rs\nCall get with one id.");
    assert!(get_example(&c, "more").unwrap().unwrap().contains("body b"));
}

#[test]
fn limits_are_clamped() {
    assert_eq!(clamp_limit(None, 8, 1, 20), 8);
    assert_eq!(clamp_limit(Some(0), 8, 1, 20), 1);
    assert_eq!(clamp_limit(Some(99), 8, 1, 20), 20);
    assert_eq!(clamp_limit(Some(5), 8, 1, 20), 5);
}

fn sym(kind: SymbolKind, name: &str, owner: Option<&str>, signature: &str, doc: &str) -> ApiSymbol {
    ApiSymbol {
        kind,
        name: name.into(),
        owner: owner.map(str::to_string),
        via_trait: None,
        signature: signature.into(),
        doc: doc.into(),
        file: "src/styled.rs".into(),
        line: 7,
        deprecated: false,
        cfg: vec![],
        generated: false,
    }
}

#[test]
fn corpus_tool_replies() {
    let mut c = Corpus {
        docs: vec![
            Doc::new("book/src/div.md", "book", "doc", "Div basics", "/c/book/src/div.md", "intro\nuse div for layout\n"),
            Doc::new("gotchas", "gotchas", "doc", "GPUI gotchas", "gotchas.md", "pin"),
        ],
        missing: vec!["awesome".into()],
    };
    let sources = list_sources_text(&c, "/c", &remotes());
    assert!(sources.starts_with("2 documents in /c\n- book — GPUI Book (MatinAniss) (1 files)\n"));
    assert!(sources.contains("- awesome — awesome-gpui (0 files) — not cloned; call sync\n"));
    assert!(sources.ends_with("- gotchas — current API pitfalls (1 files)"));
    let hit = search_reply(&c, "div", None, None).unwrap().unwrap();
    assert_eq!(hit, "[13] book/src/div.md (doc)\n  /c/book/src/div.md\n  use div for layout");
    assert!(search_reply(&c, "zzz", None, None).unwrap().unwrap_err().starts_with("No hits for \"zzz\". Try list_sources"));
    assert_eq!(get_reply(&c, "book/src/div.md").unwrap(), "# book/src/div.md (doc)\n# /c/book/src/div.md\n\nintro\nuse div for layout\n");
    assert_eq!(
        get_reply(&c, "nope").unwrap_err(),
        "Unknown id \"nope\". Search first; ids look like book/src/elements/div.md"
    );
    assert_eq!(list_examples_reply(&c).unwrap_err(), "No examples indexed. Call sync.");
    c.docs.push(doc("zed-gpui/examples/a.rs", "a", "x"));
    assert_eq!(list_examples_reply(&c).unwrap(), "zed-gpui/examples/a.rs  —  a");
    assert_eq!(sync_reply("[book] pulled", 3), "[book] pulled\n\nreindexed 3 documents");
}

#[test]
fn symbol_tool_replies() {
    let mut api = ApiIndex::empty();
    api.symbols = vec![
        sym(SymbolKind::TraitMethod, "flex", Some("Styled"), "fn flex(self) -> Self", "Flex layout."),
        sym(SymbolKind::TraitMethod, "bg", Some("Styled"), "fn bg(self) -> Self", "Background."),
        sym(SymbolKind::Struct, "Div", None, "pub struct Div", "A div."),
    ];
    api.symbols[1].generated = true;
    let out = symbol_reply(&api, "flex", None).unwrap();
    assert_eq!(out, "## flex (TraitMethod on Styled)\n`fn flex(self) -> Self`\nsrc/styled.rs:7\nFlex layout.\n\n");
    let out = symbol_reply(&api, "bg", Some("traitmethod")).unwrap();
    assert!(out.contains("src/styled.rs:7 [macro-generated]\n"));
    assert_eq!(
        symbol_reply(&api, "zzz", None).unwrap_err(),
        "No symbol \"zzz\". Call sync if the oracle is empty (gpui_status), or gpui_search."
    );
    assert_eq!(gpui_search_reply(&api, "div", None).unwrap(), "Div (Struct) — pub struct Div");
    assert_eq!(gpui_search_reply(&api, "flex", None).unwrap(), "flex (TraitMethod Styled) — fn flex(self) -> Self");
    assert_eq!(gpui_search_reply(&api, "zzz", Some(3)).unwrap_err(), "No symbols for \"zzz\"");
    assert_eq!(
        styled_reply(&api, None).unwrap(),
        "bg — fn bg(self) -> Self — Background.\nflex — fn flex(self) -> Self — Flex layout."
    );
    assert_eq!(styled_reply(&api, Some("FL")).unwrap(), "flex — fn flex(self) -> Self — Flex layout.");
    assert_eq!(styled_reply(&api, Some("zzz")).unwrap_err(), "No Styled methods (rebuild oracle / sync).");
}

fn entry(path: &str, types: &[&str], methods: &[&str], has_main: bool) -> ExampleEntry {
    ExampleEntry {
        source: "zed-gpui".into(),
        path: path.into(),
        title: "t".into(),
        types_used: types.iter().map(|s| s.to_string()).collect(),
        methods_used: methods.iter().map(|s| s.to_string()).collect(),
        loc: 10,
        has_main,
    }
}

#[test]
fn example_index_tool_replies() {
    let idx = ExampleIndex {
        schema_version: 1,
        built_at: String::new(),
        entries: vec![entry("zed-gpui/examples/a.rs", &["App", "Div"], &["flex"], true)],
    };
    let syms = vec!["flex".to_string()];
    assert_eq!(
        gpui_examples_reply(&idx, &syms, None).unwrap(),
        "zed-gpui/examples/a.rs (runnable)\n  types: App, Div\n  methods: flex"
    );
    let none = vec!["zzz".to_string()];
    assert_eq!(
        gpui_examples_reply(&idx, &none, None).unwrap_err(),
        "No examples for [\"zzz\"]. Try gpui_list_examples or sync."
    );
    let c = corpus(vec![]);
    assert_eq!(
        example_file_reply(&idx, &c, "a").unwrap(),
        "zed-gpui/examples/a.rs\n(types: App, Div)\nCall get with id zed-gpui/examples/a.rs after sync if body is missing."
    );
    let c = corpus(vec![doc("zed-gpui/examples/a.rs", "a", "fn main() {}")]);
    assert_eq!(example_file_reply(&idx, &c, "a").unwrap(), "# zed-gpui/examples/a.rs\n\nfn main() {}");
    assert_eq!(example_file_reply(&idx, &c, "b").unwrap_err(), "No example file \"b\"");
    assert_eq!(list_entries_reply(&idx).unwrap(), "zed-gpui/examples/a.rs  —  t");
    let empty = ExampleIndex { schema_version: 1, built_at: String::new(), entries: vec![] };
    assert_eq!(list_entries_reply(&empty).unwrap_err(), "Example index empty. Call sync.");
}

fn recipe(id: &str, title: &str) -> Recipe {
    Recipe { id: id.into(), title: title.into(), tags: vec![], symbols: vec![], code: "code".into() }
}

#[test]
fn recipe_and_scaffold_replies() {
    let c = Curated::new(
        vec![recipe("window_open", "Open a window"), recipe("poll_timer", "Poll timer")],
        "rev = \"ZED_PINNED_REV\"".into(),
        "path = \"../zed\"".into(),
        "fn main() {}".into(),
    );
    assert_eq!(recipe_reply(&c, Some("poll_timer"), None).unwrap(), "# poll_timer — Poll timer\n\ncode");
    assert_eq!(recipe_reply(&c, Some("nope"), None).unwrap_err(), "Unknown recipe \"nope\"");
    assert_eq!(recipe_reply(&c, Some(""), None).unwrap(), "window_open — Open a window\npoll_timer — Poll timer");
    assert_eq!(recipe_reply(&c, None, Some("window")).unwrap(), "# window_open — Open a window\n\ncode");
    assert_eq!(recipe_reply(&c, None, Some("zzz")).unwrap_err(), "No recipes matched. Try window_open, poll_timer.");
    let git = scaffold_reply(&c, None);
    assert_eq!(
        git,
        format!("## Cargo.toml\n\nrev = \"{ZED_PINNED_REV}\"\n\n## src/main.rs\n\nfn main() {{}}\n\nLinux: gpui_platform features font-kit, wayland, x11. Do not use Application::new().")
    );
    assert!(scaffold_reply(&c, Some("path")).starts_with("## Cargo.toml\n\npath = \"../zed\"\n\n"));
    assert!(scaffold_reply(&c, Some("other")).contains(ZED_PINNED_REV));
}

#[test]
fn decode_and_status_replies() {
    let api = ApiIndex::empty();
    let out = decode_reply(&api, "cannot find type `Application` in crate `gpui`").unwrap();
    assert!(out.starts_with("## old_application_new\n"));
    assert!(out.contains("\nrecipe: window_open\n\n"));
    assert_eq!(
        decode_reply(&api, "mismatched types").unwrap_err(),
        "No diagnosis. Try gpui_symbol on the type named in the error."
    );
    let ex = ExampleIndex { schema_version: 1, built_at: String::new(), entries: vec![] };
    let c = Corpus { docs: vec![], missing: vec!["book".into(), "awesome".into()] };
    let s = status_reply(&api, &ex, &c, "/c", Some(ZED_PINNED_REV));
    assert!(s.starts_with(&format!("cache: /c\npinned zed rev: {ZED_PINNED_REV}\noracle empty — call sync\nzed commit: (none)\n")));
    assert!(s.contains("\nmissing clones: book, awesome\nschema: 1\nbuilt_at: \n"));
    let mut built = ApiIndex::empty();
    built.zed_commit = "D9AD6AFF67E47DE43ABB270D22DE75DD950F1B48".into();
    let s = status_reply(&built, &ex, &c, "/c", Some("d9ad6af"));
    assert!(s.contains("pin match: yes"));
    let s = status_reply(&built, &ex, &c, "/c", Some("0000000"));
    assert!(s.contains("pin match: NO — call sync"));
    let s = status_reply(&built, &ex, &c, "/c", None);
    assert!(s.contains("pinned zed rev: HEAD (unpinned; GPUI_MCP_ZED_REV=HEAD)\nzed commit: D9AD"));
}
