use gpui_docs::curated::{Curated, DepMode, Recipe};
use gpui_docs::sources::ZED_PINNED_REV;

fn r(id: &str, title: &str, tags: &[&str], symbols: &[&str], code: &str) -> Recipe {
    Recipe {
        id: id.into(),
        title: title.into(),
        tags: tags.iter().map(|s| s.to_string()).collect(),
        symbols: symbols.iter().map(|s| s.to_string()).collect(),
        code: code.into(),
    }
}

/// The bundled recipes' metadata, with stand-in code.
fn load() -> Curated {
    Curated::new(
        vec![
            r(
                "window_open",
                "Open a window with gpui_platform::application()",
                &["boot", "window", "application", "hello"],
                &["application", "App", "WindowOptions", "Render", "div"],
                "use gpui_platform::application;\nfn main() { application().run(|cx: &mut App| {}); }\n",
            ),
            r(
                "entity_state",
                "View state in an Entity, mutate then notify",
                &["entity", "state", "notify", "click", "counter"],
                &["Entity", "Context", "cx.new", "cx.notify", "on_mouse_down"],
                "// entity",
            ),
            r(
                "uniform_list_usage",
                "Virtualized equal-height rows with uniform_list",
                &["list", "rows", "virtualized", "scroll"],
                &["uniform_list", "px"],
                "// list",
            ),
            r(
                "custom_element_canvas",
                "Custom Element for a canvas or node graph",
                &["canvas", "paint", "graph", "element", "custom", "draw"],
                &["Element", "PathBuilder", "Hitbox", "quad", "paint_path"],
                "// canvas",
            ),
            r(
                "poll_timer",
                "16ms poll loop on a background timer task",
                &["timer", "poll", "loop", "tick", "16ms"],
                &["Task", "AsyncApp", "Timer", "cx.spawn"],
                "// timer",
            ),
        ],
        "gpui = { git = \"https://github.com/zed-industries/zed\", rev = \"ZED_PINNED_REV\" }\n".into(),
        "gpui = { path = \"../zed/crates/gpui\" }\n".into(),
        "use gpui_platform::application;\nfn main() { gpui_platform::application().run(|cx| {}); }\n".into(),
    )
}

#[test]
fn loads_recipes() {
    let c = load();
    assert!(c.get("window_open").is_some());
    assert!(c.get("custom_element_canvas").is_some());
    assert!(c.get("poll_timer").is_some());
    assert_eq!(c.search("entity")[0].id, "entity_state");
    assert!(c.scaffold_main().contains("gpui_platform::application"));
    assert!(c.cargo_toml(DepMode::Git).contains(ZED_PINNED_REV));
}

#[test]
fn recipe_search_tokens_hit_canvas() {
    let c = load();
    let hits = c.search("custom element paint canvas");
    assert_eq!(hits.len(), 1, "{:?}", hits.iter().map(|r| &r.id).collect::<Vec<_>>());
    assert_eq!(hits[0].id, "custom_element_canvas");
    assert_eq!(c.search("16ms timer poll")[0].id, "poll_timer");
    assert_eq!(c.search("PathBuilder")[0].id, "custom_element_canvas");
}

#[test]
fn search_without_words_lists_all() {
    let c = load();
    assert!(c.search("zzzz").is_empty());
    assert_eq!(c.search("").len(), 5);
    assert_eq!(c.search("a").len(), 5);
}

#[test]
fn ties_break_by_id() {
    let c = Curated::new(vec![r("b", "xx", &[], &[], ""), r("a", "xx", &[], &[], "")], String::new(), String::new(), String::new());
    let ids: Vec<&str> = c.search("xx x").iter().map(|r| r.id.as_str()).collect();
    assert_eq!(ids, vec!["a", "b"]);
}

#[test]
fn get_all_and_scaffold() {
    let c = load();
    assert!(c.get("nope").is_none());
    assert_eq!(c.all().len(), 5);
    assert!(!c.cargo_toml(DepMode::Git).contains("ZED_PINNED_REV\""));
    assert_eq!(c.cargo_toml(DepMode::Path), "gpui = { path = \"../zed/crates/gpui\" }\n");
}

#[test]
fn short_tag_tokens_need_equality() {
    let c = Curated::new(vec![r("x", "y", &["loops"], &[], "")], String::new(), String::new(), String::new());
    // "lo" is shorter than 3 bytes: a tag must equal it, not just contain it.
    assert!(c.search("lo").is_empty());
    assert_eq!(c.search("loo").len(), 1);
}

#[test]
fn one_byte_words_list_every_recipe_in_order() {
    let c = load();
    let all: Vec<&str> = c.all().iter().map(|r| r.id.as_str()).collect();
    for q in ["", "  ", "a b", "Z ! q", "\t x \n y"] {
        let ids: Vec<&str> = c.search(q).iter().map(|r| r.id.as_str()).collect();
        assert_eq!(ids, all);
    }
}

#[test]
fn every_scoring_recipe_is_answered_best_first() {
    let c = Curated::new(
        vec![r("b_list", "list", &[], &[], ""), r("a_list", "list", &[], &[], ""), r("list", "other", &[], &[], ""), r("none", "x", &[], &[], "")],
        String::new(),
        String::new(),
        String::new(),
    );
    let ids: Vec<&str> = c.search("LIST").iter().map(|r| r.id.as_str()).collect();
    assert_eq!(ids, vec!["list", "a_list", "b_list"]);
}
