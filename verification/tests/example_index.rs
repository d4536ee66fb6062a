use gpui_docs::example_index::{
    collect_uses, example_entry, example_rel, finish_example_index, find_examples,
    find_examples_multi, get_file, ExampleEntry, ExampleIndex, SyntaxEvent,
};

fn e(path: &str, types: &[&str], methods: &[&str], loc: usize, has_main: bool) -> ExampleEntry {
    ExampleEntry {
        source: "zed-gpui".into(),
        path: path.into(),
        title: path.into(),
        types_used: types.iter().map(|s| s.to_string()).collect(),
        methods_used: methods.iter().map(|s| s.to_string()).collect(),
        loc,
        has_main,
    }
}

#[test]
fn ranks_method_use_above_path() {
    let idx = ExampleIndex {
        schema_version: 1,
        built_at: String::new(),
        entries: vec![
            e("zed-gpui/examples/hello_world.rs", &["App"], &["flex"], 80, true),
            e("zed-gpui/src/styled.rs", &[], &[], 2000, false),
        ],
    };
    let hits = find_examples(&idx, "flex", 5);
    assert_eq!(hits[0].path, "zed-gpui/examples/hello_world.rs");
}

#[test]
fn all_symbols_bonus_and_ties_by_path() {
    let idx = ExampleIndex {
        schema_version: 1,
        built_at: String::new(),
        entries: vec![
            e("b.rs", &["Div"], &[], 10, true),
            e("a.rs", &["Div"], &[], 10, true),
            e("c.rs", &["Div"], &["flex"], 10, true),
            e("d.rs", &[], &[], 10, true),
        ],
    };
    let syms = vec!["Div".to_string(), "flex".to_string()];
    let hits = find_examples_multi(&idx, &syms, 10);
    let paths: Vec<&str> = hits.iter().map(|h| h.path.as_str()).collect();
    assert_eq!(paths, vec!["c.rs", "a.rs", "b.rs"]);
    assert_eq!(find_examples_multi(&idx, &syms, 1).len(), 1);
    assert!(find_examples_multi(&idx, &Vec::new(), 5).is_empty());
}

#[test]
fn get_file_by_stem_or_path() {
    let idx = ExampleIndex {
        schema_version: 1,
        built_at: String::new(),
        entries: vec![e("zed-gpui/examples/Hello_World.rs", &[], &[], 1, true)],
    };
    assert!(get_file(&idx, "hello_world").is_some());
    assert!(get_file(&idx, "examples/hello_world.rs").is_some());
    assert!(get_file(&idx, "world").is_none());
}

#[test]
fn uses_are_sorted_and_unique() {
    let evs = vec![
        SyntaxEvent::MethodCall("flex".into()),
        SyntaxEvent::PathExpr("Div".into()),
        SyntaxEvent::StructLit("Bounds".into()),
        SyntaxEvent::MethodCall("bg".into()),
        SyntaxEvent::MethodCall("flex".into()),
        SyntaxEvent::CallPath("div".into()),
        SyntaxEvent::UseName("App".into()),
        SyntaxEvent::FnItem("main".into()),
    ];
    let (types, methods, has_main) = collect_uses(&evs);
    assert!(types.contains(&"App".to_string()));
    assert!(types.contains(&"Bounds".to_string()));
    assert_eq!(methods, vec!["bg".to_string(), "div".to_string(), "flex".to_string()]);
    assert!(has_main);
    let mut sorted = types.clone();
    sorted.sort();
    assert_eq!(types, sorted);
}

#[test]
fn entries_and_index() {
    assert_eq!(example_rel("zed-gpui", "/c/src/zed-gpui", "/c/src/zed-gpui/crates/gpui/examples/a.rs").unwrap(), "crates/gpui/examples/a.rs");
    let evs = vec![SyntaxEvent::FnItem("main".into())];
    let entry = example_entry("zed-gpui", "crates/gpui/examples/a_b.rs", "/c/a_b.rs", "fn main() {}\n", &evs);
    assert_eq!(entry.path, "zed-gpui/crates/gpui/examples/a_b.rs");
    assert!(entry.has_main);
    let idx = finish_example_index(vec![e("b.rs", &[], &[], 1, true), e("a.rs", &[], &[], 1, true)], "unix:1".into());
    assert_eq!(idx.entries[0].path, "a.rs");
    assert_eq!(idx.built_at, "unix:1");
}

#[test]
fn get_file_answers_the_first_match() {
    let idx = ExampleIndex {
        entries: vec![
            e("crates/gpui/examples/other.rs", &[], &[], 1, true),
            e("crates/gpui/examples/Hello.rs", &[], &[], 1, true),
            e("crates/ui/examples/hello.rs", &[], &[], 1, true),
        ],
        ..ExampleIndex::empty()
    };
    assert_eq!(get_file(&idx, "hello").unwrap().path, "crates/gpui/examples/Hello.rs");
    assert_eq!(get_file(&idx, "ui/examples/hello.rs").unwrap().path, "crates/ui/examples/hello.rs");
    assert!(get_file(&idx, "missing").is_none());
}

#[test]
fn scoring_examples_are_answered_unless_the_limit_is_full() {
    let idx = ExampleIndex {
        entries: vec![
            e("z/uses.rs", &["Div"], &[], 10, true),
            e("a/uses.rs", &["Div"], &[], 10, true),
            e("m/named_div.rs", &[], &[], 10, false),
            e("q/other.rs", &[], &[], 10, true),
        ],
        ..ExampleIndex::empty()
    };
    let all: Vec<&str> = find_examples_multi(&idx, &vec!["Div".to_string()], 10).iter().map(|e| e.path.as_str()).collect();
    assert_eq!(all, vec!["a/uses.rs", "z/uses.rs"]);
    let named: Vec<&str> = find_examples_multi(&idx, &vec!["div".to_string()], 10).iter().map(|e| e.path.as_str()).collect();
    assert_eq!(named, vec!["m/named_div.rs"]);
    let cut: Vec<&str> = find_examples_multi(&idx, &vec!["Div".to_string()], 1).iter().map(|e| e.path.as_str()).collect();
    assert_eq!(cut, vec!["a/uses.rs"]);
}
