use gpui_docs::api_index::{ApiIndex, ApiSymbol, SymbolKind};
use gpui_docs::error_decoder::{compile, decode, decode_with, ErrorPattern};

fn window() -> ApiSymbol {
    ApiSymbol {
        kind: SymbolKind::Struct,
        name: "Window".into(),
        owner: None,
        via_trait: None,
        signature: "pub struct Window".into(),
        doc: String::new(),
        file: "window.rs".into(),
        line: 1,
        deprecated: false,
        cfg: vec![],
        generated: false,
    }
}

#[test]
fn old_application_new() {
    let d = decode("cannot find type `Application` in crate `gpui`", &ApiIndex::empty());
    assert_eq!(d[0].pattern_id, "old_application_new");
}

#[test]
fn missing_flex() {
    let d = decode("no method named `flex` found for struct `HelloWorld`", &ApiIndex::empty());
    assert_eq!(d[0].pattern_id, "missing_styled");
}

#[test]
fn fallback_looks_up_gpui_path() {
    let mut idx = ApiIndex::empty();
    idx.symbols.push(window());
    let d = decode("failed to resolve gpui::Window in this crate", &idx);
    assert_eq!(d[0].pattern_id, "fallback_symbol_lookup");
    assert!(d[0].fix.contains("Window"));
}

#[test]
fn fallback_text_and_names() {
    let mut idx = ApiIndex::empty();
    idx.symbols.push(window());
    let d = decode("failed to resolve gpui::Window and gpui::Window; no method named `window` here", &idx);
    // "Window" and "window" are looked up once each, in sorted order.
    assert_eq!(d.len(), 2);
    assert_eq!(d[0].related_symbols, vec!["Window".to_string()]);
    assert_eq!(d[0].explanation, "No pattern matched; nearest GPUI symbols for `Window`:");
    assert_eq!(d[0].fix, "Window (Struct) pub struct Window");
    assert_eq!(d[1].related_symbols, vec!["window".to_string()]);
    assert!(d[0].related_recipe.is_none());
}

#[test]
fn nothing_found_gives_no_diagnosis() {
    assert!(decode("error[E0308]: mismatched types", &ApiIndex::empty()).is_empty());
    assert!(decode("failed to resolve gpui::Nothing", &ApiIndex::empty()).is_empty());
}

#[test]
fn patterns_are_case_insensitive_and_in_order() {
    let patterns = vec![
        ErrorPattern {
            id: "first".into(),
            regexes: vec!["(unclosed".into(), "hello".into()],
            explanation: "e1".into(),
            fix: "f1".into(),
            symbols: vec!["A".into()],
            recipe: None,
        },
        ErrorPattern {
            id: "second".into(),
            regexes: vec!["wor.d".into()],
            explanation: "e2".into(),
            fix: "f2".into(),
            symbols: vec![],
            recipe: Some("r".into()),
        },
        ErrorPattern {
            id: "never".into(),
            regexes: vec!["zzz".into()],
            explanation: "e3".into(),
            fix: "f3".into(),
            symbols: vec![],
            recipe: None,
        },
    ];
    let d = decode_with("HELLO\nWorld", &patterns, &ApiIndex::empty());
    let ids: Vec<&str> = d.iter().map(|x| x.pattern_id.as_str()).collect();
    assert_eq!(ids, vec!["first", "second"]);
    assert_eq!(d[1].related_recipe.as_deref(), Some("r"));
    assert!(compile("(unclosed").is_none());
    assert!(compile("gpui::([A-Za-z0-9_]+)").is_some());
}

#[test]
fn other_builtin_patterns() {
    let e = ApiIndex::empty();
    assert_eq!(decode("expected `&mut Context<'_, Counter>`, found `&mut App`", &e)[0].pattern_id, "entity_context");
    assert_eq!(
        decode("the trait bound `Counter: IntoElement` is not satisfied", &e)[0].pattern_id,
        "into_element"
    );
    assert_eq!(decode("the trait `Render` is not implemented for `Foo`", &e)[0].pattern_id, "missing_render");
}

#[test]
fn fallback_looks_up_at_most_five_names() {
    let mut idx = ApiIndex::empty();
    for n in ["A", "B", "C", "D", "E", "F"] {
        let mut s = window();
        s.name = n.into();
        idx.symbols.push(s);
    }
    let d = decode("gpui::F gpui::E gpui::D gpui::C gpui::B gpui::A", &idx);
    let names: Vec<&str> = d.iter().map(|x| x.related_symbols[0].as_str()).collect();
    assert_eq!(names, vec!["A", "B", "C", "D", "E"]);
}

#[test]
fn matched_pattern_gives_no_fallback() {
    let mut api = ApiIndex::empty();
    api.symbols.push(window());
    let text = "no method named `flex` found for struct `gpui::Window`";
    let with = decode(text, &api);
    let without = decode(text, &ApiIndex::empty());
    assert!(!with.is_empty());
    assert!(with.iter().all(|d| d.pattern_id != "fallback_symbol_lookup"));
    let ids_with: Vec<&str> = with.iter().map(|d| d.pattern_id.as_str()).collect();
    let ids_without: Vec<&str> = without.iter().map(|d| d.pattern_id.as_str()).collect();
    assert_eq!(ids_with, ids_without);
}
