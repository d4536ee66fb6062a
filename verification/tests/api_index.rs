use gpui_docs::api_index::{
    check_schema, finish_api_index, gpui_version_from_manifest, index_path, load_or_empty, lookup,
    merge_macro_supplement, methods_for_type, methods_for_type_filtered, ApiIndex, ApiSymbol, SymbolKind, TraitImplRecord,
    INDEX_SCHEMA_VERSION,
};
use gpui_docs::parse::{index_file, AttrModel, FnModel, ItemModel, TypeModel};
use gpui_docs::syntax::index_source;

fn sym(kind: SymbolKind, name: &str, owner: Option<&str>, signature: &str, doc: &str) -> ApiSymbol {
    ApiSymbol {
        kind,
        name: name.into(),
        owner: owner.map(str::to_string),
        via_trait: None,
        signature: signature.into(),
        doc: doc.into(),
        file: "t.rs".into(),
        line: 1,
        deprecated: false,
        cfg: vec![],
        generated: false,
    }
}

fn sym_at(kind: SymbolKind, name: &str, owner: Option<&str>, signature: &str, doc: &str, file: &str, line: usize) -> ApiSymbol {
    let mut s = sym(kind, name, owner, signature, doc);
    s.file = file.into();
    s.line = line;
    s
}

fn generated_styled(name: &str) -> ApiSymbol {
    let mut s = sym(SymbolKind::TraitMethod, name, Some("Styled"), &format!("fn {name}(self) -> Self"), "");
    s.file = "styled.rs".into();
    s.generated = true;
    s
}

#[test]
fn api_index_lookup_tiers() {
    let mut idx = ApiIndex::empty();
    idx.symbols = vec![
        sym_at(SymbolKind::Trait, "Render", None, "pub trait Render", "view", "a.rs", 1),
        sym_at(SymbolKind::Fn, "uniform_list", None, "fn uniform_list", "list", "b.rs", 1),
    ];
    let hits = lookup(&idx, "Render", None, 8);
    assert_eq!(hits[0].name, "Render");
    assert!(lookup(&idx, "uniform", None, 8)[0].name.contains("uniform"));
    assert!(lookup(&idx, "x", Some("nope"), 8).is_empty());
}

#[test]
fn mod_lookup_tiers() {
    let mut idx = ApiIndex::empty();
    idx.symbols = vec![
        sym(SymbolKind::Trait, "Render", None, "pub trait Render", "view"),
        sym(SymbolKind::Fn, "uniform_list", None, "fn uniform_list", "list"),
    ];
    let hits = lookup(&idx, "Render", None, 8);
    assert_eq!(hits[0].name, "Render");
    assert!(lookup(&idx, "uniform", None, 8)[0].name.contains("uniform"));
    assert!(lookup(&idx, "x", Some("nope"), 8).is_empty());
}

#[test]
fn api_index_merge_skips_existing_styled() {
    let mut v = vec![sym_at(SymbolKind::TraitMethod, "flex", Some("Styled"), "fn flex", "", "styled.rs", 45)];
    merge_macro_supplement(&mut v, vec![generated_styled("flex"), generated_styled("flex_col")]);
    assert_eq!(
        v.iter().filter(|s| s.name == "flex" && s.owner.as_deref() == Some("Styled")).count(),
        1
    );
    assert!(v.iter().any(|s| s.name == "flex_col" && s.generated));
}

#[test]
fn mod_merge_skips_existing_styled() {
    let mut v = vec![sym(SymbolKind::TraitMethod, "flex", Some("Styled"), "fn flex", "")];
    merge_macro_supplement(&mut v, vec![generated_styled("flex"), generated_styled("flex_col")]);
    assert_eq!(
        v.iter().filter(|s| s.name == "flex" && s.owner.as_deref() == Some("Styled")).count(),
        1
    );
    assert!(v.iter().any(|s| s.name == "flex_col" && s.generated));
}

#[test]
fn methods_unknown_type() {
    let out = methods_for_type(&ApiIndex::empty(), "Nope", None);
    assert!(out.contains("No type 'Nope'"));
}

#[test]
fn methods_inherent_and_trait() {
    let mut idx = ApiIndex::empty();
    idx.symbols = vec![
        sym(SymbolKind::Method, "notify", Some("Entity"), "fn notify", "ping\nmore"),
        sym(SymbolKind::TraitMethod, "render", Some("Render"), "fn render", "draw"),
    ];
    idx.trait_impls.push(TraitImplRecord { trait_name: "Render".into(), for_type: "Entity".into() });
    let out = methods_for_type(&idx, "Entity", None);
    assert!(out.contains("## Inherent"));
    assert!(out.contains("- `fn notify` — ping"));
    assert!(out.contains("## via Render"));
    assert!(out.contains("- `fn render` — draw"));
    let filtered = methods_for_type(&idx, "Entity", Some("missing"));
    assert_eq!(filtered, "No methods for 'Entity' with that trait filter.");
}

#[test]
fn methods_collapse_when_many() {
    let mut idx = ApiIndex::empty();
    idx.trait_impls.push(TraitImplRecord { trait_name: "Styled".into(), for_type: "Div".into() });
    for i in 0..201 {
        idx.symbols.push(sym(SymbolKind::TraitMethod, &format!("m{i}"), Some("Styled"), &format!("fn m{i}"), ""));
    }
    let out = methods_for_type(&idx, "Div", None);
    assert!(out.contains("## Inherent\n(none)"));
    assert!(out.contains("via Styled"));
    assert!(out.contains("m0, m1"));
    assert!(out.contains("Pass trait_filter"));
    let filtered = methods_for_type(&idx, "Div", Some("Styled"));
    assert!(filtered.contains("- `fn m0`"));
    assert!(!filtered.contains("Pass trait_filter"));
    assert!(!filtered.contains("## Inherent"));
}

fn attr(name: Option<&str>, value: Option<&str>, tokens: &str) -> AttrModel {
    AttrModel { name: name.map(str::to_string), value: value.map(str::to_string), tokens: tokens.into() }
}

fn f(name: &str, is_pub: bool, sig: &str, line: usize) -> FnModel {
    FnModel { name: name.into(), is_pub, sig_tokens: sig.into(), attrs: vec![], line }
}

#[test]
fn indexes_public_items_and_skips_private_and_generic_impl() {
    let src = r#"
            struct Hidden;
            pub struct Foo { pub a: u8, b: u8 }
            pub enum Bar { A, B, C }
            pub trait T { fn m(&self); }
            impl Foo {
                pub fn inherent(&self) {}
                fn privm(&self) {}
            }
            impl T for Foo {}
            impl<T> Clone for T {}
        "#;
    let (symbols, impls) = index_source(src, "t.rs").unwrap();
    assert!(symbols.iter().any(|s| s.name == "Foo" && s.kind == SymbolKind::Struct));
    assert!(symbols.iter().all(|s| s.name != "Hidden"));
    assert!(symbols.iter().any(|s| s.name == "inherent" && s.owner.as_deref() == Some("Foo")));
    assert!(symbols.iter().all(|s| s.name != "privm"));
    assert!(symbols
        .iter()
        .any(|s| { s.name == "m" && s.kind == SymbolKind::TraitMethod && s.owner.as_deref() == Some("T") }));
    assert!(impls.iter().any(|r| r.trait_name == "T" && r.for_type == "Foo"));
    assert!(impls.iter().all(|r| r.trait_name != "Clone"));
    let foo = symbols.iter().find(|s| s.name == "Foo").unwrap();
    assert!(foo.signature.contains("2 fields"));
    let bar = symbols.iter().find(|s| s.name == "Bar").unwrap();
    assert!(bar.signature.contains("3 variants"));
}

#[test]
fn index_file_over_item_models() {
    let items = vec![
        ItemModel::Struct { name: "Hidden".into(), is_pub: false, fields: 0, attrs: vec![], line: 2 },
        ItemModel::Struct { name: "Foo".into(), is_pub: true, fields: 2, attrs: vec![], line: 3 },
        ItemModel::Enum { name: "Bar".into(), is_pub: true, variants: 3, attrs: vec![], line: 4 },
        ItemModel::Trait {
            name: "T".into(),
            is_pub: true,
            attrs: vec![],
            line: 5,
            methods: vec![f("m", false, "fn m (& self)", 5)],
        },
        ItemModel::Impl {
            self_ty: TypeModel::Path(Some("Foo".into())),
            type_params: vec![],
            trait_ident: None,
            methods: vec![f("inherent", true, "pub fn inherent (& self)", 7), f("privm", false, "fn privm (& self)", 8)],
        },
        ItemModel::Impl { self_ty: TypeModel::Path(Some("Foo".into())), type_params: vec![], trait_ident: Some("T".into()), methods: vec![] },
        ItemModel::Impl {
            self_ty: TypeModel::Path(Some("T".into())),
            type_params: vec!["T".into()],
            trait_ident: Some("Clone".into()),
            methods: vec![],
        },
    ];
    let (symbols, impls) = index_file(&items, "t.rs");
    assert!(symbols.iter().any(|s| s.name == "Foo" && s.kind == SymbolKind::Struct));
    assert!(symbols.iter().all(|s| s.name != "Hidden"));
    assert!(symbols.iter().any(|s| s.name == "inherent" && s.owner.as_deref() == Some("Foo")));
    assert!(symbols.iter().all(|s| s.name != "privm"));
    assert!(symbols
        .iter()
        .any(|s| { s.name == "m" && s.kind == SymbolKind::TraitMethod && s.owner.as_deref() == Some("T") }));
    assert!(impls.iter().any(|r| r.trait_name == "T" && r.for_type == "Foo"));
    assert!(impls.iter().all(|r| r.trait_name != "Clone"));
    let foo = symbols.iter().find(|s| s.name == "Foo").unwrap();
    assert!(foo.signature.contains("2 fields"));
    let bar = symbols.iter().find(|s| s.name == "Bar").unwrap();
    assert!(bar.signature.contains("3 variants"));
}

#[test]
fn index_file_reads_docs_deprecation_and_cfg() {
    let items = vec![ItemModel::Fn {
        f: FnModel {
            name: "div".into(),
            is_pub: true,
            sig_tokens: "pub  fn div ( ) -> Div".into(),
            attrs: vec![
                attr(Some("doc"), Some(" Construct a div."), "# [doc = \" Construct a div.\"]"),
                attr(Some("doc"), Some(" More text."), "# [doc = \" More text.\"]"),
                attr(Some("doc"), Some(""), "# [doc = \"\"]"),
                attr(Some("doc"), Some(" Second paragraph."), "# [doc = \" Second paragraph.\"]"),
                attr(Some("deprecated"), None, "# [deprecated]"),
                attr(Some("cfg"), None, "test"),
                attr(Some("inline"), None, "# [inline]"),
                attr(None, Some(" not a doc"), "# [a :: doc = \" not a doc\"]"),
            ],
            line: 12,
        },
    }];
    let (symbols, impls) = index_file(&items, "div.rs");
    assert_eq!(symbols.len(), 1);
    assert!(impls.is_empty());
    let s = &symbols[0];
    assert_eq!(s.kind, SymbolKind::Fn);
    assert_eq!(s.doc, "Construct a div. More text.");
    assert!(s.deprecated);
    assert_eq!(s.cfg, vec!["test".to_string()]);
    assert_eq!(s.file, "div.rs");
    assert_eq!(s.line, 12);
    assert!(!s.generated);
    assert_eq!(s.signature, "pub fn div( ) -> Div");
}

#[test]
fn lookup_orders_tiers_and_respects_limit_and_kind() {
    let mut idx = ApiIndex::empty();
    idx.symbols = vec![
        sym(SymbolKind::Fn, "xdiv", None, "fn xdiv", ""),
        sym(SymbolKind::Fn, "other", None, "fn other", "mentions div here"),
        sym(SymbolKind::Fn, "div", None, "fn div", ""),
        sym(SymbolKind::Struct, "Div", None, "pub struct Div", ""),
        sym(SymbolKind::Fn, "divider", None, "fn divider", ""),
    ];
    let hits = lookup(&idx, "div", None, 8);
    let names: Vec<&str> = hits.iter().map(|s| s.name.as_str()).collect();
    assert_eq!(names, vec!["div", "Div", "divider", "xdiv", "other"]);
    assert_eq!(lookup(&idx, "div", None, 2).len(), 2);
    let structs = lookup(&idx, "div", Some("STRUCT"), 8);
    assert_eq!(structs.len(), 1);
    assert_eq!(structs[0].name, "Div");
    assert!(lookup(&idx, "   ", None, 8).is_empty());
    assert!(lookup(&idx, "div", None, 0).is_empty());
}

#[test]
fn kind_filter_words() {
    assert_eq!(SymbolKind::parse_filter("TraitMethod"), Some(SymbolKind::TraitMethod));
    assert_eq!(SymbolKind::parse_filter("trait_method"), Some(SymbolKind::TraitMethod));
    assert_eq!(SymbolKind::parse_filter("function"), Some(SymbolKind::Fn));
    assert_eq!(SymbolKind::parse_filter("type"), Some(SymbolKind::TypeAlias));
    assert_eq!(SymbolKind::parse_filter("Macro"), Some(SymbolKind::Macro));
    assert_eq!(SymbolKind::parse_filter("nope"), None);
    assert_eq!(SymbolKind::TypeAlias.name(), "TypeAlias");
}

#[test]
fn gpui_version_from_manifest_reads_first_version_line() {
    let text = "[package]\nname = \"gpui\"\n  version = \"0.2.2\"\nedition = \"2021\"\n";
    assert_eq!(gpui_version_from_manifest(text), "0.2.2");
    assert_eq!(gpui_version_from_manifest("[package]\nname = \"gpui\"\n"), "unknown");
}

#[test]
fn schema_check_and_empty_fallback() {
    let mut idx = ApiIndex::empty();
    assert_eq!(idx.schema_version, INDEX_SCHEMA_VERSION);
    assert_eq!(idx.gpui_version, "unknown");
    idx.schema_version = INDEX_SCHEMA_VERSION + 1;
    assert!(check_schema(idx).is_err());
    assert!(check_schema(ApiIndex::empty()).is_ok());
    let loaded: Result<ApiIndex, String> = Err("missing".into());
    let fallback = load_or_empty(loaded);
    assert!(fallback.symbols.is_empty());
    assert!(index_path("/cache").ends_with("api_index.json"));
    assert!(index_path("/cache").starts_with("/cache"));
}

#[test]
fn methods_for_type_filter_is_case_insensitive() {
    let mut idx = ApiIndex::empty();
    idx.symbols = vec![sym(SymbolKind::TraitMethod, "render", Some("Render"), "fn render", "draw")];
    idx.trait_impls.push(TraitImplRecord { trait_name: "Render".into(), for_type: "View".into() });
    let out = methods_for_type(&idx, "View", Some("render"));
    assert!(out.contains("## via Render"));
    assert!(!out.contains("## Inherent"));
}

#[test]
fn merging_twice_changes_nothing() {
    let mut v = vec![sym(SymbolKind::Struct, "Div", None, "pub struct Div", "")];
    let extra = vec![generated_styled("flex"), generated_styled("bg"), generated_styled("flex")];
    merge_macro_supplement(&mut v, extra.clone());
    let names: Vec<&str> = v.iter().map(|s| s.name.as_str()).collect();
    assert_eq!(names, vec!["Div", "flex", "bg"]);
    let before = v.len();
    merge_macro_supplement(&mut v, extra);
    assert_eq!(v.len(), before);
}

#[test]
fn finished_index_is_sorted_by_name_kind_owner() {
    let symbols = vec![
        sym(SymbolKind::Method, "paint", Some("Window"), "fn paint", ""),
        sym(SymbolKind::Fn, "div", None, "fn div", ""),
        sym(SymbolKind::Method, "paint", Some("Canvas"), "fn paint", ""),
        sym(SymbolKind::Struct, "Div", None, "pub struct Div", ""),
        sym(SymbolKind::TraitMethod, "paint", Some("Element"), "fn paint", ""),
    ];
    let idx = finish_api_index(symbols, vec![], vec![], vec![generated_styled("bg")], "abc", "0.2.0".into(), "unix:1".into());
    let keys: Vec<(String, Option<String>)> = idx.symbols.iter().map(|s| (s.name.clone(), s.owner.clone())).collect();
    assert_eq!(
        keys,
        vec![
            ("Div".to_string(), None),
            ("bg".to_string(), Some("Styled".to_string())),
            ("div".to_string(), None),
            ("paint".to_string(), Some("Element".to_string())),
            ("paint".to_string(), Some("Canvas".to_string())),
            ("paint".to_string(), Some("Window".to_string())),
        ]
    );
    assert_eq!(idx.zed_commit, "abc");
    assert_eq!(idx.gpui_version, "0.2.0");
}

#[test]
fn methods_name_filter_keeps_matching_methods() {
    let mut idx = ApiIndex::empty();
    idx.symbols = vec![
        sym(SymbolKind::Method, "on_mouse_down", Some("Window"), "fn on_mouse_down", "press"),
        sym(SymbolKind::Method, "paint_quad", Some("Window"), "fn paint_quad", "quad"),
        sym(SymbolKind::TraitMethod, "Paint_Layer", Some("Canvas"), "fn paint_layer", ""),
        sym(SymbolKind::TraitMethod, "clear", Some("Canvas"), "fn clear", ""),
    ];
    idx.trait_impls.push(TraitImplRecord { trait_name: "Canvas".into(), for_type: "Window".into() });
    let out = methods_for_type_filtered(&idx, "Window", None, Some("PAINT"));
    assert_eq!(
        out,
        "## Inherent\n- `fn paint_quad` — quad\n\n## via Canvas\n- `fn paint_layer` — \n"
    );
    let none = methods_for_type_filtered(&idx, "Window", None, Some("zzz"));
    assert_eq!(none, "## Inherent\n(none)\n\n## via Canvas\n");
    let all = methods_for_type_filtered(&idx, "Window", None, None);
    assert_eq!(all, methods_for_type(&idx, "Window", None));
    let unknown = methods_for_type_filtered(&idx, "Nope", None, Some("paint"));
    assert_eq!(unknown, "No type 'Nope' in the GPUI index. Try gpui_symbol / gpui_search first.");
}

#[test]
fn lookup_ties_keep_index_order_and_cut_at_limit() {
    let mut idx = ApiIndex::empty();
    idx.symbols = vec![
        sym(SymbolKind::Struct, "RenderOnce", None, "pub struct RenderOnce", ""),
        sym(SymbolKind::Trait, "Render", None, "pub trait Render", ""),
        sym(SymbolKind::Struct, "RenderImage", None, "pub struct RenderImage", ""),
        sym(SymbolKind::Fn, "prerender", None, "pub fn prerender", ""),
        sym(SymbolKind::Fn, "paint", None, "pub fn paint", "may render"),
    ];
    let names: Vec<&str> = lookup(&idx, "render", None, 10).iter().map(|s| s.name.as_str()).collect();
    assert_eq!(names, vec!["Render", "RenderOnce", "RenderImage", "prerender", "paint"]);
    let cut: Vec<&str> = lookup(&idx, "render", None, 2).iter().map(|s| s.name.as_str()).collect();
    assert_eq!(cut, vec!["Render", "RenderOnce"]);
}

#[test]
fn traits_are_listed_once_in_ascending_order() {
    let mut idx = ApiIndex::empty();
    for t in ["Styled", "Element", "Styled", "IntoElement"] {
        idx.trait_impls.push(TraitImplRecord { trait_name: t.into(), for_type: "Div".into() });
    }
    idx.trait_impls.push(TraitImplRecord { trait_name: "Render".into(), for_type: "Other".into() });
    let out = methods_for_type(&idx, "Div", None);
    assert_eq!(out, "## Inherent\n(none)\n\n## via Element\n\n## via IntoElement\n\n## via Styled\n");
    let other = methods_for_type(&idx, "Other", None);
    assert_eq!(other, "## Inherent\n(none)\n\n## via Render\n");
}

#[test]
fn no_type_only_without_records_and_symbols() {
    let mut idx = ApiIndex::empty();
    idx.symbols = vec![sym(SymbolKind::Struct, "Div", None, "pub struct Div", "")];
    assert_eq!(methods_for_type(&idx, "Div", None), "## Inherent\n(none)\n");
    assert_eq!(
        methods_for_type(&idx, "Span", Some("Styled")),
        "No type 'Span' in the GPUI index. Try gpui_symbol / gpui_search first."
    );
}

#[test]
fn index_source_reads_docs_cfg_and_reference_impls() {
    let src = r#"
/// Makes a div.
///
/// More.
#[cfg(feature = "x")]
#[deprecated]
pub fn div() -> Div { todo!() }

impl<'a> Render for &'a Widget {}
impl Widget { pub fn paint(&self) {} }
mod not_indexed {}
"#;
    let (symbols, impls) = index_source(src, "w.rs").unwrap();
    let d = symbols.iter().find(|s| s.name == "div").unwrap();
    assert_eq!(d.doc, "Makes a div.");
    assert!(d.deprecated);
    assert_eq!(d.cfg, vec!["# [cfg (feature = \"x\")]".to_string()]);
    assert_eq!(d.signature, "fn div() -> Div");
    assert_eq!(d.line, 2);
    assert!(impls.iter().any(|r| r.trait_name == "Render" && r.for_type == "Widget"));
    assert!(symbols.iter().any(|s| s.name == "paint" && s.owner.as_deref() == Some("Widget")));
    assert!(index_source("pub fn broken(", "b.rs").is_none());
}

#[test]
fn index_source_refuses_a_doc_cut_inside_a_character() {
    let doc = format!("{}é", "a".repeat(399));
    let src = format!("#[doc = \"{doc}\"]\npub struct S;\n#[doc = \"{doc}\"]\nstruct Private;\n");
    assert!(index_source(&src, "s.rs").is_none());
    let private_only = format!("#[doc = \"{doc}\"]\nstruct Private;\n");
    assert_eq!(index_source(&private_only, "s.rs").unwrap().0.len(), 0);
}

#[test]
fn parse_filter_accepts_every_kind_name_in_any_case() {
    let kinds = [
        SymbolKind::Struct,
        SymbolKind::Enum,
        SymbolKind::Trait,
        SymbolKind::TraitMethod,
        SymbolKind::Method,
        SymbolKind::Fn,
        SymbolKind::TypeAlias,
        SymbolKind::Const,
        SymbolKind::Macro,
    ];
    for k in kinds {
        let name = format!("{k:?}");
        assert_eq!(SymbolKind::parse_filter(&name), Some(k));
        assert_eq!(SymbolKind::parse_filter(&name.to_ascii_uppercase()), Some(k));
        assert_eq!(SymbolKind::parse_filter(&name.to_ascii_lowercase()), Some(k));
    }
}
